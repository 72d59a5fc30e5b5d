//! The heap and its sessions: allocation, field access through handles,
//! and mark-and-sweep collection from a root set.
use vstd::prelude::*;
use crate::pool::{Pool, count_live, count_clear, lemma_count_clear_set};
use crate::value::{Addr, Pair, PairRef, PairStorage, Value, ValueStorage, VectorRef};

verus! {

/// What a session holds, as mathematics: its scope token, and for each pool
/// its slots and mark bits.
pub struct HeapView {
    pub token: u64,
    pub pairs: Seq<Option<PairStorage>>,
    pub pair_marks: Seq<bool>,
    pub vectors: Seq<Option<Vec<ValueStorage>>>,
    pub vector_marks: Seq<bool>,
}

impl HeapView {
    /// The object at `a` exists.
    pub open spec fn live(self, a: Addr) -> bool {
        match a {
            Addr::Pair(i) => i < self.pairs.len() && self.pairs[i as int] is Some,
            Addr::Vector(i) => i < self.vectors.len() && self.vectors[i as int] is Some,
        }
    }

    /// The mark bit of the slot at `a` is set.
    pub open spec fn marked(self, a: Addr) -> bool {
        match a {
            Addr::Pair(i) => i < self.pair_marks.len() && self.pair_marks[i as int],
            Addr::Vector(i) => i < self.vector_marks.len() && self.vector_marks[i as int],
        }
    }

    /// The storage form of the pair in slot `i`.
    pub open spec fn pair_at(self, i: usize) -> PairStorage {
        self.pairs[i as int]->Some_0
    }

    /// The storage forms of the elements of the vector in slot `i`.
    pub open spec fn vector_at(self, i: usize) -> Seq<ValueStorage> {
        self.vectors[i as int]->Some_0@
    }

    /// The live object at `a` holds a reference to `b`.
    pub open spec fn points_to(self, a: Addr, b: Addr) -> bool {
        self.live(a) && match a {
            Addr::Pair(i) => self.pair_at(i).car.spec_addr() == Some(b) || self.pair_at(i).cdr.spec_addr()
                == Some(b),
            Addr::Vector(i) => exists|j: int|
                0 <= j < self.vector_at(i).len() && #[trigger] self.vector_at(i)[j].spec_addr() == Some(b),
        }
    }

    /// No live object refers to a free slot.
    pub open spec fn closed(self) -> bool {
        forall|a: Addr, b: Addr| #[trigger] self.points_to(a, b) ==> self.live(b)
    }

    /// A chain of references, each element held by the one before it.
    pub open spec fn is_path(self, p: Seq<Addr>) -> bool {
        &&& p.len() > 0
        &&& forall|k: int| 0 <= k < p.len() - 1 ==> #[trigger] self.points_to(p[k], p[k + 1])
    }

    /// `a` is the address of a handle among `roots`.
    pub open spec fn is_root(self, roots: Seq<Value>, a: Addr) -> bool {
        exists|i: int| 0 <= i < roots.len() && #[trigger] roots[i].spec_addr() == Some(a)
    }

    /// `x` can be reached from a handle among `roots` by following
    /// references.
    pub open spec fn reachable(self, roots: Seq<Value>, x: Addr) -> bool {
        exists|p: Seq<Addr>|
            #[trigger] self.is_path(p) && self.is_root(roots, p[0]) && p.last() == x
    }

    /// `x` can be reached from `a` along a chain of unmarked objects.
    pub open spec fn reachable_unmarked(self, a: Addr, x: Addr) -> bool {
        exists|p: Seq<Addr>|
            #[trigger] self.is_path(p) && p[0] == a && p.last() == x && forall|k: int|
                0 <= k < p.len() ==> !self.marked(#[trigger] p[k])
    }

    /// The value may be used in this session: its handle, if it is one,
    /// carries the session's token and names a live object.
    pub open spec fn valid(self, v: Value) -> bool {
        &&& v.scoped(self.token)
        &&& (v.spec_addr() matches Some(a) ==> self.live(a))
    }

    /// A stored value may be placed in this heap: its address, if any, is
    /// live.
    pub open spec fn valid_storage(self, s: ValueStorage) -> bool {
        s.spec_addr() matches Some(a) ==> self.live(a)
    }

    /// `r` carries the session's token and names a live pair.
    pub open spec fn valid_pair(self, r: PairRef) -> bool {
        r.token == self.token && self.live(Addr::Pair(r.index))
    }

    /// `r` carries the session's token and names a live vector.
    pub open spec fn valid_vector(self, r: VectorRef) -> bool {
        r.token == self.token && self.live(Addr::Vector(r.index))
    }

    /// The car of the pair behind `r`, as a plain value.
    pub open spec fn car(self, r: PairRef) -> Value {
        self.pair_at(r.index).car.spec_from_storage(self.token)
    }

    /// The cdr of the pair behind `r`, as a plain value.
    pub open spec fn cdr(self, r: PairRef) -> Value {
        self.pair_at(r.index).cdr.spec_from_storage(self.token)
    }

    /// The elements of the vector behind `r`, as plain values.
    pub open spec fn elements(self, r: VectorRef) -> Seq<Value> {
        self.vector_at(r.index).map_values(|s: ValueStorage| s.spec_from_storage(self.token))
    }

    /// `new` is what tracing from `a` leaves of `self`: the same objects,
    /// and the marks of `self` together with every object reachable from
    /// `a` along unmarked objects.
    pub open spec fn traced(self, a: Addr, new: HeapView) -> bool {
        &&& new.same_objects(self)
        &&& new.pair_marks.len() == self.pair_marks.len()
        &&& new.vector_marks.len() == self.vector_marks.len()
        &&& forall|x: Addr| #[trigger] new.marked(x) == (self.marked(x) || self.reachable_unmarked(a, x))
    }

    /// `new` is what allocating the pair `p` leaves of `self`, and `r` the
    /// handle it returns: a slot that was free, now holding `p`.
    pub open spec fn pair_allocated(self, p: Pair, new: HeapView, r: PairRef) -> bool {
        &&& !self.live(Addr::Pair(r.index))
        &&& r.token == self.token
        &&& new.token == self.token
        &&& new.vectors == self.vectors
        &&& new.vector_marks == self.vector_marks
        &&& new.pairs == if r.index < self.pairs.len() {
            self.pairs.update(r.index as int, Some(p.spec_to_storage()))
        } else {
            self.pairs.push(Some(p.spec_to_storage()))
        }
        &&& new.pair_marks == if r.index < self.pair_marks.len() {
            self.pair_marks.update(r.index as int, false)
        } else {
            self.pair_marks.push(false)
        }
        &&& new.valid_pair(r)
        &&& new.car(r) == p.car
        &&& new.cdr(r) == p.cdr
    }

    /// In a closed heap, the fields of a live pair are values valid in it.
    pub proof fn lemma_fields_valid(self, r: PairRef)
        requires
            self.closed(),
            self.valid_pair(r),
        ensures
            self.valid(self.car(r)),
            self.valid(self.cdr(r)),
    {
        if let Some(b) = self.pair_at(r.index).car.spec_addr() {
            assert(self.points_to(Addr::Pair(r.index), b));
        }
        if let Some(b) = self.pair_at(r.index).cdr.spec_addr() {
            assert(self.points_to(Addr::Pair(r.index), b));
        }
    }

    /// In a closed heap, the elements of a live vector are values valid in
    /// it.
    pub proof fn lemma_elements_valid(self, r: VectorRef, i: int)
        requires
            self.closed(),
            self.valid_vector(r),
            0 <= i < self.elements(r).len(),
        ensures
            self.valid(self.elements(r)[i]),
    {
        if let Some(b) = self.vector_at(r.index)[i].spec_addr() {
            assert(self.points_to(Addr::Vector(r.index), b));
        }
    }

    /// `new` is what allocating a vector of `elems` leaves of `self`, and
    /// `r` the handle it returns: a slot that was free, now holding the
    /// elements' storage forms.
    pub open spec fn vector_allocated(self, elems: Seq<Value>, new: HeapView, r: VectorRef) -> bool {
        &&& !self.live(Addr::Vector(r.index))
        &&& r.token == self.token
        &&& new.token == self.token
        &&& new.pairs == self.pairs
        &&& new.pair_marks == self.pair_marks
        &&& new.vectors.len() == if r.index < self.vectors.len() {
            self.vectors.len()
        } else {
            self.vectors.len() + 1
        }
        &&& forall|i: int|
            0 <= i < self.vectors.len() && i != r.index ==> #[trigger] new.vectors[i] == self.vectors[i]
        &&& new.vector_marks == if r.index < self.vector_marks.len() {
            self.vector_marks.update(r.index as int, false)
        } else {
            self.vector_marks.push(false)
        }
        &&& new.valid_vector(r)
        &&& new.elements(r) == elems
    }

    /// The same objects as `old`, with the same contents.
    pub open spec fn same_objects(self, old: HeapView) -> bool {
        &&& self.token == old.token
        &&& self.pairs == old.pairs
        &&& self.vectors == old.vectors
    }
}

/// Storing one object whose references are all live keeps a closed heap
/// closed, when no other object changes and no object disappears.
proof fn lemma_store_closed(old: HeapView, new: HeapView, a: Addr)
    requires
        old.closed(),
        forall|x: Addr| old.live(x) ==> new.live(x),
        forall|x: Addr, b: Addr| x != a && new.points_to(x, b) ==> old.points_to(x, b),
        forall|b: Addr| new.points_to(a, b) ==> new.live(b),
    ensures
        new.closed(),
{
    assert forall|x: Addr, b: Addr| #[trigger] new.points_to(x, b) implies new.live(b) by {
        if x != a {
            assert(old.points_to(x, b));
        }
    }
}

/// A chain of unmarked objects from `a` to `x` extends to an unmarked
/// object that `x` refers to.
proof fn lemma_extend_unmarked(h: HeapView, a: Addr, x: Addr, b: Addr)
    requires
        h.reachable_unmarked(a, x),
        h.points_to(x, b),
        !h.marked(b),
    ensures
        h.reachable_unmarked(a, b),
{
    let p = choose|p: Seq<Addr>|
        #[trigger] h.is_path(p) && p[0] == a && p.last() == x && forall|k: int|
            0 <= k < p.len() ==> !h.marked(#[trigger] p[k]);
    let q = p.push(b);
    assert forall|k: int| 0 <= k < q.len() - 1 implies #[trigger] h.points_to(q[k], q[k + 1]) by {
        if k < p.len() - 1 {
            assert(h.points_to(p[k], p[k + 1]));
        }
    }
    assert(h.is_path(q));
    assert forall|k: int| 0 <= k < q.len() implies !h.marked(#[trigger] q[k]) by {
        if k < p.len() {
            assert(!h.marked(p[k]));
        }
    }
}

/// A chain of length one: an object reaches itself.
proof fn lemma_path_single(h: HeapView, a: Addr)
    ensures
        h.is_path(seq![a]),
        seq![a][0] == a,
        seq![a].last() == a,
{
}

/// Along a chain in `g`, if the first object is marked in `m` and each
/// marked object's successor on the chain is marked, every object on the
/// chain is marked.
proof fn lemma_marked_along(g: HeapView, m: HeapView, p: Seq<Addr>, k: int)
    requires
        g.is_path(p),
        0 <= k < p.len(),
        m.marked(p[0]),
        forall|j: int| 0 <= j < p.len() - 1 && m.marked(#[trigger] p[j]) ==> m.marked(p[j + 1]),
    ensures
        m.marked(p[k]),
    decreases k,
{
    if k > 0 {
        lemma_marked_along(g, m, p, k - 1);
        assert(m.marked(p[k - 1]));
    }
}

/// Two views with the same objects have the same references.
proof fn lemma_same_edges(g: HeapView, h: HeapView)
    requires
        g.pairs == h.pairs,
        g.vectors == h.vectors,
    ensures
        forall|a: Addr| #[trigger] g.live(a) == h.live(a),
        forall|a: Addr, b: Addr| #[trigger] g.points_to(a, b) == h.points_to(a, b),
        forall|p: Seq<Addr>| #[trigger] g.is_path(p) == h.is_path(p),
{
    assert forall|p: Seq<Addr>| #[trigger] g.is_path(p) == h.is_path(p) by {
        if g.is_path(p) {
            assert forall|k: int| 0 <= k < p.len() - 1 implies #[trigger] h.points_to(p[k], p[k + 1]) by {
                assert(g.points_to(p[k], p[k + 1]));
            }
        }
        if h.is_path(p) {
            assert forall|k: int| 0 <= k < p.len() - 1 implies #[trigger] g.points_to(p[k], p[k + 1]) by {
                assert(h.points_to(p[k], p[k + 1]));
            }
        }
    }
}

/// An object reachable from valid roots in a closed heap is live.
proof fn lemma_reachable_live(h: HeapView, roots: Seq<Value>, x: Addr)
    requires
        h.closed(),
        forall|i: int| 0 <= i < roots.len() ==> h.valid(#[trigger] roots[i]),
        h.reachable(roots, x),
    ensures
        h.live(x),
{
    let p = choose|p: Seq<Addr>| #[trigger] h.is_path(p) && h.is_root(roots, p[0]) && p.last() == x;
    if p.len() == 1 {
        let i = choose|i: int| 0 <= i < roots.len() && #[trigger] roots[i].spec_addr() == Some(p[0]);
        assert(h.valid(roots[i]));
    } else {
        assert(h.points_to(p[p.len() - 2], p[p.len() - 2 + 1]));
    }
}

/// Tracing twice from the same object sets the same marks as tracing
/// once: after the first pass the object is marked, so the second enters
/// nothing.
pub proof fn lemma_trace_twice(h0: HeapView, h1: HeapView, h2: HeapView, a: Addr)
    requires
        h0.live(a),
        h0.traced(a, h1),
        h1.traced(a, h2),
    ensures
        forall|x: Addr| #[trigger] h2.marked(x) == h1.marked(x),
        h2.pairs == h1.pairs,
        h2.vectors == h1.vectors,
{
    if !h0.marked(a) {
        lemma_path_single(h0, a);
        assert(h0.reachable_unmarked(a, a));
    }
    assert(h1.marked(a));
    assert forall|x: Addr| #[trigger] h2.marked(x) == h1.marked(x) by {
        if h1.reachable_unmarked(a, x) {
            let p = choose|p: Seq<Addr>|
                #[trigger] h1.is_path(p) && p[0] == a && p.last() == x && forall|k: int|
                    0 <= k < p.len() ==> !h1.marked(#[trigger] p[k]);
            assert(!h1.marked(p[0]));
        }
    }
}

/// Adding roots loses no reachable object: if every handle among `r1` is
/// also among `r2`, whatever is reachable from `r1` is reachable from `r2`.
pub proof fn lemma_reachable_monotone(h: HeapView, r1: Seq<Value>, r2: Seq<Value>, x: Addr)
    requires
        forall|i: int| 0 <= i < r1.len() ==> exists|j: int| 0 <= j < r2.len() && r2[j] == #[trigger] r1[i],
        h.reachable(r1, x),
    ensures
        h.reachable(r2, x),
{
    let p = choose|p: Seq<Addr>| #[trigger] h.is_path(p) && h.is_root(r1, p[0]) && p.last() == x;
    let i = choose|i: int| 0 <= i < r1.len() && #[trigger] r1[i].spec_addr() == Some(p[0]);
    let j = choose|j: int| 0 <= j < r2.len() && r2[j] == r1[i];
    assert(r2[j].spec_addr() == Some(p[0]));
    assert(h.is_root(r2, p[0]));
}

/// Two allocations in a row give distinct handles, whatever the values
/// allocated: the second takes a slot that was free after the first.
pub proof fn lemma_allocations_distinct(
    h0: HeapView,
    h1: HeapView,
    h2: HeapView,
    p: Pair,
    q: Pair,
    r1: PairRef,
    r2: PairRef,
)
    requires
        h0.pair_allocated(p, h1, r1),
        h1.pair_allocated(q, h2, r2),
    ensures
        r1 != r2,
{
}

/// A heap: one pool of pairs and one pool of vectors. All allocation and
/// mutation go through a session opened on it.
pub struct Heap {
    next_token: u64,
    pairs: Pool<PairStorage>,
    vectors: Pool<Vec<ValueStorage>>,
}

/// The sole gateway to a heap while it is open. Every handle it makes
/// carries its scope token.
pub struct GcHeapSession {
    token: u64,
    pairs: Pool<PairStorage>,
    vectors: Pool<Vec<ValueStorage>>,
}

impl Heap {
    /// The pools are consistent and no live object refers to a free slot.
    pub closed spec fn wf(&self) -> bool {
        &&& self.pairs.wf()
        &&& self.vectors.wf()
        &&& self.spec_view().closed()
    }

    /// The heap's pools, and the token its next session will carry.
    pub closed spec fn spec_view(&self) -> HeapView {
        HeapView {
            token: self.next_token,
            pairs: self.pairs.spec_slots(),
            pair_marks: self.pairs.spec_marks(),
            vectors: self.vectors.spec_slots(),
            vector_marks: self.vectors.spec_marks(),
        }
    }

    /// An empty heap.
    pub fn new() -> (r: Heap)
        ensures
            r.wf(),
            r.spec_view().pairs.len() == 0,
            r.spec_view().vectors.len() == 0,
    {
        Heap { next_token: 0, pairs: Pool::new(), vectors: Pool::new() }
    }

    /// Opens a session on the heap. Its token differs from that of the
    /// session before it, so handles of that session are not valid in it.
    pub fn open_session(self) -> (r: GcHeapSession)
        requires
            self.wf(),
        ensures
            r.wf(),
            r@.token == self.spec_view().token,
            r@.pairs == self.spec_view().pairs,
            r@.vectors == self.spec_view().vectors,
    {
        GcHeapSession { token: self.next_token, pairs: self.pairs, vectors: self.vectors }
    }
}

impl View for GcHeapSession {
    type V = HeapView;

    closed spec fn view(&self) -> HeapView {
        HeapView {
            token: self.token,
            pairs: self.pairs.spec_slots(),
            pair_marks: self.pairs.spec_marks(),
            vectors: self.vectors.spec_slots(),
            vector_marks: self.vectors.spec_marks(),
        }
    }
}

impl GcHeapSession {
    /// The pools are consistent and no live object refers to a free slot.
    pub closed spec fn wf(&self) -> bool {
        &&& self.pairs.wf()
        &&& self.vectors.wf()
        &&& self@.closed()
    }

    /// Ends the session and gives the heap back; the next session gets a
    /// new token.
    pub fn close(self) -> (r: Heap)
        requires
            self.wf(),
        ensures
            r.wf(),
            r.spec_view().token == self@.token.wrapping_add(1),
            r.spec_view().pairs == self@.pairs,
            r.spec_view().vectors == self@.vectors,
    {
        let r = Heap { next_token: self.token.wrapping_add(1), pairs: self.pairs, vectors: self.vectors };
        proof {
            let v = r.spec_view();
            assert forall|a: Addr, b: Addr| #[trigger] v.points_to(a, b) implies v.live(b) by {
                assert(self@.points_to(a, b));
            }
        }
        r
    }

    /// A well-formed session's heap is closed.
    pub proof fn lemma_closed(&self)
        requires
            self.wf(),
        ensures
            self@.closed(),
    {
    }

    /// The scope token of this session.
    pub fn token(&self) -> (r: u64)
        ensures
            r == self@.token,
    {
        self.token
    }

    /// Converts a stored value into a plain value of this session.
    fn load(&self, s: &ValueStorage) -> (r: Value)
        ensures
            r == s.spec_from_storage(self@.token),
    {
        s.from_storage(self.token)
    }

    /// Allocates a pair holding `p` and returns a handle to it.
    pub fn alloc_pair(&mut self, p: Pair) -> (r: PairRef)
        requires
            old(self).wf(),
            old(self)@.valid(p.car),
            old(self)@.valid(p.cdr),
        ensures
            final(self).wf(),
            old(self)@.pair_allocated(p, final(self)@, r),
    {
        let s = p.to_storage();
        proof {
            p.lemma_round_trip(self.token);
        }
        let index = self.pairs.insert(s);
        let r = PairRef { token: self.token, index };
        proof {
            let o = old(self)@;
            let n = self@;
            assert forall|x: Addr, b: Addr| x != Addr::Pair(index) && n.points_to(x, b) implies o.points_to(x, b) by {
                if let Addr::Pair(i) = x {
                    assert(n.pairs[i as int] == o.pairs[i as int]);
                }
            }
            lemma_store_closed(o, n, Addr::Pair(index));
        }
        r
    }

    /// The car of the pair behind `r`.
    pub fn car(&self, r: PairRef) -> (v: Value)
        requires
            self@.valid_pair(r),
        ensures
            v == self@.car(r),
    {
        self.load(&self.pairs.get(r.index).car)
    }

    /// The cdr of the pair behind `r`.
    pub fn cdr(&self, r: PairRef) -> (v: Value)
        requires
            self@.valid_pair(r),
        ensures
            v == self@.cdr(r),
    {
        self.load(&self.pairs.get(r.index).cdr)
    }

    /// Replaces the car of the pair behind `r` with `v`.
    pub fn set_car(&mut self, r: PairRef, v: Value)
        requires
            old(self).wf(),
            old(self)@.valid_pair(r),
            old(self)@.valid(v),
        ensures
            final(self).wf(),
            final(self)@ == (HeapView {
                pairs: old(self)@.pairs.update(
                    r.index as int,
                    Some(PairStorage { car: v.spec_to_storage(), cdr: old(self)@.pair_at(r.index).cdr }),
                ),
                ..old(self)@
            }),
            final(self)@.car(r) == v,
            final(self)@.cdr(r) == old(self)@.cdr(r),
    {
        let cdr = self.pairs.get(r.index).cdr.duplicate();
        proof {
            if let Some(b) = cdr.spec_addr() {
                assert(self@.points_to(Addr::Pair(r.index), b));
            }
        }
        self.store_pair(r.index, PairStorage { car: v.to_storage(), cdr });
        proof {
            v.lemma_round_trip(self.token);
        }
    }

    /// Replaces the cdr of the pair behind `r` with `v`.
    pub fn set_cdr(&mut self, r: PairRef, v: Value)
        requires
            old(self).wf(),
            old(self)@.valid_pair(r),
            old(self)@.valid(v),
        ensures
            final(self).wf(),
            final(self)@ == (HeapView {
                pairs: old(self)@.pairs.update(
                    r.index as int,
                    Some(PairStorage { car: old(self)@.pair_at(r.index).car, cdr: v.spec_to_storage() }),
                ),
                ..old(self)@
            }),
            final(self)@.car(r) == old(self)@.car(r),
            final(self)@.cdr(r) == v,
    {
        let car = self.pairs.get(r.index).car.duplicate();
        proof {
            if let Some(b) = car.spec_addr() {
                assert(self@.points_to(Addr::Pair(r.index), b));
            }
        }
        self.store_pair(r.index, PairStorage { car, cdr: v.to_storage() });
        proof {
            v.lemma_round_trip(self.token);
        }
    }

    /// Allocates a vector holding `elems` and returns a handle to it.
    pub fn alloc_vector(&mut self, elems: Vec<Value>) -> (r: VectorRef)
        requires
            old(self).wf(),
            forall|j: int| 0 <= j < elems@.len() ==> old(self)@.valid(#[trigger] elems@[j]),
        ensures
            final(self).wf(),
            old(self)@.vector_allocated(elems@, final(self)@, r),
    {
        let mut stored: Vec<ValueStorage> = Vec::new();
        let mut j: usize = 0;
        while j < elems.len()
            invariant
                j <= elems@.len(),
                stored@.len() == j,
                forall|k: int| 0 <= k < j ==> #[trigger] stored@[k] == elems@[k].spec_to_storage(),
            decreases elems@.len() - j,
        {
            stored.push(elems[j].to_storage());
            j = j + 1;
        }
        let ghost sv = stored@;
        let index = self.vectors.insert(stored);
        let r = VectorRef { token: self.token, index };
        proof {
            let o = old(self)@;
            let n = self@;
            assert(n.vector_at(index) == sv);
            assert forall|x: Addr, b: Addr| x != Addr::Vector(index) && n.points_to(x, b) implies o.points_to(x, b) by {
                if let Addr::Vector(i) = x {
                    assert(n.vectors[i as int] == o.vectors[i as int]);
                }
            }
            assert forall|b: Addr| n.points_to(Addr::Vector(index), b) implies n.live(b) by {
                let k = choose|k: int| 0 <= k < sv.len() && #[trigger] sv[k].spec_addr() == Some(b);
                elems@[k].lemma_round_trip(o.token);
            }
            lemma_store_closed(o, n, Addr::Vector(index));
            assert forall|k: int| 0 <= k < elems@.len() implies #[trigger] n.elements(r)[k] == elems@[k] by {
                elems@[k].lemma_round_trip(o.token);
            }
            assert(n.elements(r) =~= elems@);
        }
        r
    }

    /// The number of elements of the vector behind `r`.
    pub fn vector_len(&self, r: VectorRef) -> (n: usize)
        requires
            self@.valid_vector(r),
        ensures
            n == self@.vector_at(r.index).len(),
            n == self@.elements(r).len(),
    {
        self.vectors.get(r.index).len()
    }

    /// Element `i` of the vector behind `r`.
    pub fn vector_get(&self, r: VectorRef, i: usize) -> (v: Value)
        requires
            self@.valid_vector(r),
            i < self@.elements(r).len(),
        ensures
            v == self@.elements(r)[i as int],
    {
        self.load(&self.vectors.get(r.index)[i])
    }

    /// Replaces element `i` of the vector behind `r` with `v`.
    pub fn vector_set(&mut self, r: VectorRef, i: usize, v: Value)
        requires
            old(self).wf(),
            old(self)@.valid_vector(r),
            i < old(self)@.elements(r).len(),
            old(self)@.valid(v),
        ensures
            final(self).wf(),
            final(self)@.token == old(self)@.token,
            final(self)@.pairs == old(self)@.pairs,
            final(self)@.pair_marks == old(self)@.pair_marks,
            final(self)@.vector_marks == old(self)@.vector_marks,
            final(self)@.vectors.len() == old(self)@.vectors.len(),
            forall|k: int|
                0 <= k < old(self)@.vectors.len() && k != r.index ==> #[trigger] final(self)@.vectors[k]
                    == old(self)@.vectors[k],
            final(self)@.valid_vector(r),
            final(self)@.elements(r) == old(self)@.elements(r).update(i as int, v),
    {
        let ghost o = self@;
        let mut stored: Vec<ValueStorage> = Vec::new();
        let n = self.vectors.get(r.index).len();
        let mut j: usize = 0;
        while j < n
            invariant
                self@ == o,
                self@.valid_vector(r),
                n == o.vector_at(r.index).len(),
                j <= n,
                stored@.len() == j,
                forall|k: int| 0 <= k < j ==> #[trigger] stored@[k] == o.vector_at(r.index)[k],
            decreases n - j,
        {
            stored.push(self.vectors.get(r.index)[j].duplicate());
            j = j + 1;
        }
        stored.set(i, v.to_storage());
        let ghost sv = stored@;
        self.vectors.set(r.index, stored);
        proof {
            let nv = self@;
            v.lemma_round_trip(o.token);
            assert(nv.vector_at(r.index) == sv);
            assert forall|x: Addr, b: Addr| x != Addr::Vector(r.index) && nv.points_to(x, b) implies o.points_to(x, b) by {
                if let Addr::Vector(k) = x {
                    assert(nv.vectors[k as int] == o.vectors[k as int]);
                }
            }
            assert forall|b: Addr| nv.points_to(Addr::Vector(r.index), b) implies nv.live(b) by {
                let k = choose|k: int| 0 <= k < sv.len() && #[trigger] sv[k].spec_addr() == Some(b);
                if k != i {
                    assert(o.points_to(Addr::Vector(r.index), b));
                }
            }
            lemma_store_closed(o, nv, Addr::Vector(r.index));
            assert(nv.elements(r) =~= o.elements(r).update(i as int, v));
        }
    }

    /// Whether the mark bit of the slot at `a` is set.
    pub fn is_marked(&self, a: Addr) -> (r: bool)
        requires
            self.wf(),
            self@.live(a),
        ensures
            r == self@.marked(a),
    {
        match a {
            Addr::Pair(i) => self.pairs.is_marked(i),
            Addr::Vector(i) => self.vectors.is_marked(i),
        }
    }

    /// Sets the mark bit of the slot at `a`.
    fn set_mark(&mut self, a: Addr)
        requires
            old(self).wf(),
            old(self)@.live(a),
            !old(self)@.marked(a),
        ensures
            final(self).wf(),
            final(self)@.same_objects(old(self)@),
            final(self)@.pair_marks.len() == old(self)@.pair_marks.len(),
            final(self)@.vector_marks.len() == old(self)@.vector_marks.len(),
            forall|x: Addr| #[trigger] final(self)@.marked(x) == (old(self)@.marked(x) || x == a),
            count_clear(final(self)@.pair_marks) + count_clear(final(self)@.vector_marks) + 1
                == count_clear(old(self)@.pair_marks) + count_clear(old(self)@.vector_marks),
    {
        match a {
            Addr::Pair(i) => {
                self.pairs.set_mark(i);
                proof {
                    lemma_count_clear_set(old(self)@.pair_marks, i as int);
                }
            },
            Addr::Vector(i) => {
                self.vectors.set_mark(i);
                proof {
                    lemma_count_clear_set(old(self)@.vector_marks, i as int);
                }
            },
        }
        proof {
            assert forall|b: Addr, c: Addr| #[trigger] self@.points_to(b, c) implies self@.live(c) by {
                assert(old(self)@.points_to(b, c));
            }
        }
    }

    /// Appends to `work` every address that the live object at `a` refers
    /// to: the tracing rule of its type.
    fn push_refs(&self, a: Addr, work: &mut Vec<Addr>)
        requires
            self.wf(),
            self@.live(a),
        ensures
            final(work)@.len() >= old(work)@.len(),
            forall|k: int| 0 <= k < old(work)@.len() ==> #[trigger] final(work)@[k] == old(work)@[k],
            forall|k: int|
                old(work)@.len() <= k < final(work)@.len() ==> self@.points_to(a, #[trigger] final(work)@[k]),
            forall|b: Addr| self@.points_to(a, b) ==> #[trigger] final(work)@.contains(b),
    {
        let ghost w0 = work@;
        match a {
            Addr::Pair(i) => {
                let p = self.pairs.get(i);
                if let Some(b) = p.car.addr() {
                    work.push(b);
                }
                let ghost w1 = work@;
                if let Some(b) = p.cdr.addr() {
                    work.push(b);
                }
                proof {
                    assert forall|b: Addr| self@.points_to(a, b) implies #[trigger] work@.contains(b) by {
                        if p.car.spec_addr() == Some(b) {
                            assert(w1[w0.len() as int] == b);
                            assert(work@[w0.len() as int] == b);
                        } else {
                            assert(work@[work@.len() - 1] == b);
                        }
                    }
                }
            },
            Addr::Vector(i) => {
                let v = self.vectors.get(i);
                let mut j: usize = 0;
                while j < v.len()
                    invariant
                        self.wf(),
                        self@.live(a),
                        a == Addr::Vector(i),
                        v@ == self@.vector_at(i),
                        j <= v@.len(),
                        work@.len() >= w0.len(),
                        forall|k: int| 0 <= k < w0.len() ==> #[trigger] work@[k] == w0[k],
                        forall|k: int| w0.len() <= k < work@.len() ==> self@.points_to(a, #[trigger] work@[k]),
                        forall|k: int|
                            0 <= k < j ==> (#[trigger] v@[k].spec_addr() matches Some(b) ==> work@.contains(b)),
                    decreases v@.len() - j,
                {
                    let ghost before = work@;
                    if let Some(b) = v[j].addr() {
                        work.push(b);
                        proof {
                            assert(work@[work@.len() - 1] == b);
                            assert forall|k: int| 0 <= k < j implies (#[trigger] v@[k].spec_addr() matches Some(c)
                                ==> work@.contains(c)) by {
                                if let Some(c) = v@[k].spec_addr() {
                                    let m = choose|m: int| 0 <= m < before.len() && before[m] == c;
                                    assert(work@[m] == c);
                                }
                            }
                        }
                    }
                    j = j + 1;
                }
                proof {
                    assert forall|b: Addr| self@.points_to(a, b) implies #[trigger] work@.contains(b) by {
                        let k = choose|k: int| 0 <= k < v@.len() && #[trigger] v@[k].spec_addr() == Some(b);
                        assert(v@[k].spec_addr() matches Some(c) ==> work@.contains(c));
                    }
                }
            },
        }
    }

    /// Marks the live object at `a` and, through their references, every
    /// object reachable from it along unmarked objects. An object whose
    /// mark is already set is not entered again, so tracing ends on cyclic
    /// and shared structure, and tracing a marked object changes nothing.
    pub fn trace(&mut self, a: Addr)
        requires
            old(self).wf(),
            old(self)@.live(a),
        ensures
            final(self).wf(),
            old(self)@.traced(a, final(self)@),
    {
        let ghost o = self@;
        if self.is_marked(a) {
            proof {
                assert forall|x: Addr| #[trigger] o.marked(x) == (o.marked(x) || o.reachable_unmarked(a, x)) by {
                    if o.reachable_unmarked(a, x) {
                        let p = choose|p: Seq<Addr>|
                            #[trigger] o.is_path(p) && p[0] == a && p.last() == x && forall|k: int|
                                0 <= k < p.len() ==> !o.marked(#[trigger] p[k]);
                        assert(!o.marked(p[0]));
                    }
                }
            }
            return;
        }
        let mut work: Vec<Addr> = Vec::new();
        work.push(a);
        proof {
            lemma_path_single(o, a);
            assert(o.reachable_unmarked(a, a));
            assert(work@[0] == a);
        }
        while work.len() > 0
            invariant
                self.wf(),
                o.live(a),
                o.closed(),
                self@.same_objects(o),
                self@.pair_marks.len() == o.pair_marks.len(),
                self@.vector_marks.len() == o.vector_marks.len(),
                forall|x: Addr| o.marked(x) ==> #[trigger] self@.marked(x),
                forall|x: Addr| #[trigger] self@.marked(x) && !o.marked(x) ==> o.reachable_unmarked(a, x),
                forall|k: int|
                    0 <= k < work@.len() ==> o.live(#[trigger] work@[k]) && (o.marked(work@[k])
                        || o.reachable_unmarked(a, work@[k])),
                forall|x: Addr, b: Addr|
                    #[trigger] o.points_to(x, b) && self@.marked(x) && !o.marked(x) ==> self@.marked(b)
                        || work@.contains(b),
                self@.marked(a) || work@.contains(a),
            decreases count_clear(self@.pair_marks) + count_clear(self@.vector_marks), work@.len(),
        {
            let ghost before = work@;
            let ghost m0 = self@;
            let x = work.pop().unwrap();
            proof {
                lemma_same_edges(o, self@);
                assert(before[before.len() - 1] == x);
                assert forall|b: Addr| before.contains(b) && b != x implies #[trigger] work@.contains(b) by {
                    let m = choose|m: int| 0 <= m < before.len() && before[m] == b;
                    assert(work@[m] == b);
                }
            }
            if !self.is_marked(x) {
                let ghost w1 = work@;
                self.set_mark(x);
                self.push_refs(x, &mut work);
                proof {
                    lemma_same_edges(o, self@);
                    assert(o.reachable_unmarked(a, x));
                    assert forall|k: int| 0 <= k < work@.len() implies o.live(#[trigger] work@[k]) && (o.marked(work@[k])
                        || o.reachable_unmarked(a, work@[k])) by {
                        if k < w1.len() {
                            assert(work@[k] == before[k]);
                        } else {
                            assert(o.points_to(x, work@[k]));
                            if !o.marked(work@[k]) {
                                lemma_extend_unmarked(o, a, x, work@[k]);
                            }
                        }
                    }
                    assert forall|y: Addr, b: Addr|
                        #[trigger] o.points_to(y, b) && self@.marked(y) && !o.marked(y) implies self@.marked(b)
                            || work@.contains(b) by {
                        if y != x {
                            assert(m0.marked(y));
                            if !m0.marked(b) {
                                assert(before.contains(b));
                                if b != x {
                                    assert(w1.contains(b));
                                    let m = choose|m: int| 0 <= m < w1.len() && w1[m] == b;
                                    assert(work@[m] == b);
                                }
                            }
                        } else {
                            assert(self@.points_to(x, b));
                        }
                    }
                    if !self@.marked(a) {
                        assert(before.contains(a));
                        let m = choose|m: int| 0 <= m < before.len() && before[m] == a;
                        assert(work@[m] == a);
                    }
                }
            } else {
                proof {
                    assert forall|k: int| 0 <= k < work@.len() implies o.live(#[trigger] work@[k]) && (o.marked(work@[k])
                        || o.reachable_unmarked(a, work@[k])) by {
                        assert(work@[k] == before[k]);
                    }
                }
            }
        }
        proof {
            assert forall|x: Addr|
                #[trigger] self@.marked(x) == (o.marked(x) || o.reachable_unmarked(a, x)) by {
                if o.reachable_unmarked(a, x) {
                    let p = choose|p: Seq<Addr>|
                        #[trigger] o.is_path(p) && p[0] == a && p.last() == x && forall|k: int|
                            0 <= k < p.len() ==> !o.marked(#[trigger] p[k]);
                    assert forall|j: int| 0 <= j < p.len() - 1 && self@.marked(#[trigger] p[j]) implies self@.marked(p[j + 1]) by {
                        assert(o.points_to(p[j], p[j + 1]));
                        assert(!o.marked(p[j]));
                    }
                    lemma_marked_along(o, self@, p, p.len() - 1);
                }
            }
        }
    }

    /// Collects garbage: clears every mark bit, traces from each handle
    /// among `roots`, then frees every object left unmarked. Afterwards an
    /// object is live exactly when it was reachable from `roots`, and
    /// survivors keep their contents and slots.
    pub fn collect(&mut self, roots: &Vec<Value>)
        requires
            old(self).wf(),
            forall|i: int| 0 <= i < roots@.len() ==> old(self)@.valid(#[trigger] roots@[i]),
        ensures
            final(self).wf(),
            final(self)@.token == old(self)@.token,
            final(self)@.pairs.len() == old(self)@.pairs.len(),
            final(self)@.vectors.len() == old(self)@.vectors.len(),
            forall|i: int|
                0 <= i < old(self)@.pairs.len() ==> #[trigger] final(self)@.pairs[i] == if old(
                    self,
                )@.reachable(roots@, Addr::Pair(i as usize)) {
                    old(self)@.pairs[i]
                } else {
                    None
                },
            forall|i: int|
                0 <= i < old(self)@.vectors.len() ==> #[trigger] final(self)@.vectors[i] == if old(
                    self,
                )@.reachable(roots@, Addr::Vector(i as usize)) {
                    old(self)@.vectors[i]
                } else {
                    None
                },
            forall|x: Addr| #[trigger] final(self)@.live(x) == old(self)@.reachable(roots@, x),
    {
        let ghost o = self@;
        self.pairs.clear_marks();
        self.vectors.clear_marks();
        proof {
            lemma_same_edges(o, self@);
            assert forall|b: Addr, c: Addr| #[trigger] self@.points_to(b, c) implies self@.live(c) by {
                assert(o.points_to(b, c));
            }
        }
        let mut i: usize = 0;
        while i < roots.len()
            invariant
                self.wf(),
                o.closed(),
                forall|j: int| 0 <= j < roots@.len() ==> o.valid(#[trigger] roots@[j]),
                self@.same_objects(o),
                self@.pair_marks.len() == o.pair_marks.len(),
                self@.vector_marks.len() == o.vector_marks.len(),
                i <= roots@.len(),
                forall|x: Addr| #[trigger] self@.marked(x) ==> o.reachable(roots@, x),
                forall|x: Addr, b: Addr| #[trigger] o.points_to(x, b) && self@.marked(x) ==> self@.marked(b),
                forall|j: int|
                    0 <= j < i ==> (#[trigger] roots@[j].spec_addr() matches Some(a) ==> self@.marked(a)),
            decreases roots@.len() - i,
        {
            if let Some(a) = roots[i].addr() {
                let ghost m = self@;
                proof {
                    lemma_same_edges(o, m);
                }
                self.trace(a);
                proof {
                    let n = self@;
                    assert forall|x: Addr| #[trigger] n.marked(x) implies o.reachable(roots@, x) by {
                        if !m.marked(x) {
                            let p = choose|p: Seq<Addr>|
                                #[trigger] m.is_path(p) && p[0] == a && p.last() == x && forall|k: int|
                                    0 <= k < p.len() ==> !m.marked(#[trigger] p[k]);
                            assert(o.is_path(p));
                            assert(o.is_root(roots@, p[0]));
                        }
                    }
                    assert forall|x: Addr, b: Addr| #[trigger] o.points_to(x, b) && n.marked(x) implies n.marked(b) by {
                        if !m.marked(x) && !m.marked(b) {
                            assert(m.points_to(x, b));
                            lemma_extend_unmarked(m, a, x, b);
                        }
                    }
                    if !m.marked(a) {
                        lemma_path_single(m, a);
                        assert(m.reachable_unmarked(a, a));
                    }
                }
            }
            i = i + 1;
        }
        let ghost mk = self@;
        proof {
            assert forall|x: Addr| #[trigger] mk.marked(x) == o.reachable(roots@, x) by {
                if o.reachable(roots@, x) {
                    let p = choose|p: Seq<Addr>| #[trigger] o.is_path(p) && o.is_root(roots@, p[0]) && p.last() == x;
                    let r = choose|r: int| 0 <= r < roots@.len() && #[trigger] roots@[r].spec_addr() == Some(p[0]);
                    assert(roots@[r].spec_addr() matches Some(a) ==> mk.marked(a));
                    assert forall|j: int| 0 <= j < p.len() - 1 && mk.marked(#[trigger] p[j]) implies mk.marked(p[j + 1]) by {
                        assert(o.points_to(p[j], p[j + 1]));
                    }
                    lemma_marked_along(o, mk, p, p.len() - 1);
                }
            }
        }
        self.pairs.sweep();
        self.vectors.sweep();
        proof {
            self.pairs.lemma_len_bound();
            self.vectors.lemma_len_bound();
            let n = self@;
            assert forall|x: Addr| #[trigger] n.live(x) == o.reachable(roots@, x) by {
                if o.reachable(roots@, x) {
                    lemma_reachable_live(o, roots@, x);
                }
                assert(mk.marked(x) == o.reachable(roots@, x));
            }
            assert forall|k: int| 0 <= k < o.pairs.len() implies #[trigger] n.pairs[k] == if o.reachable(roots@, Addr::Pair(k as usize)) {
                o.pairs[k]
            } else {
                None
            } by {
                assert(mk.marked(Addr::Pair(k as usize)) == o.reachable(roots@, Addr::Pair(k as usize)));
            }
            assert forall|k: int| 0 <= k < o.vectors.len() implies #[trigger] n.vectors[k] == if o.reachable(roots@, Addr::Vector(k as usize)) {
                o.vectors[k]
            } else {
                None
            } by {
                assert(mk.marked(Addr::Vector(k as usize)) == o.reachable(roots@, Addr::Vector(k as usize)));
            }
            assert forall|b: Addr, c: Addr| #[trigger] n.points_to(b, c) implies n.live(c) by {
                assert(n.live(b));
                match b {
                    Addr::Pair(k) => assert(n.pairs[k as int] == o.pairs[k as int]),
                    Addr::Vector(k) => assert(n.vectors[k as int] == o.vectors[k as int]),
                }
                assert(o.points_to(b, c));
                assert(mk.marked(b));
                assert(mk.marked(c));
                lemma_reachable_live(o, roots@, c);
            }
        }
    }

    /// The number of live pairs.
    pub fn pair_count(&self) -> (r: usize)
        ensures
            r == count_live(self@.pairs),
    {
        self.pairs.live_count()
    }

    /// The number of live vectors.
    pub fn vector_count(&self) -> (r: usize)
        ensures
            r == count_live(self@.vectors),
    {
        self.vectors.live_count()
    }

    /// Writes `s` over the live pair in slot `i`.
    fn store_pair(&mut self, i: usize, s: PairStorage)
        requires
            old(self).wf(),
            old(self)@.live(Addr::Pair(i)),
            old(self)@.valid_storage(s.car),
            old(self)@.valid_storage(s.cdr),
        ensures
            final(self).wf(),
            final(self)@ == (HeapView { pairs: old(self)@.pairs.update(i as int, Some(s)), ..old(self)@ }),
    {
        self.pairs.set(i, s);
        proof {
            let o = old(self)@;
            let n = self@;
            assert forall|x: Addr, b: Addr| x != Addr::Pair(i) && n.points_to(x, b) implies o.points_to(x, b) by {
                if let Addr::Pair(k) = x {
                    assert(n.pairs[k as int] == o.pairs[k as int]);
                }
            }
            lemma_store_closed(o, n, Addr::Pair(i));
        }
    }
}

} // verus!

//! A typed allocation pool: slots that are free or hold one storage value,
//! a mark bit per slot, and a list of free slots to reuse.
use vstd::prelude::*;

verus! {

/// The number of occupied slots in `s`.
pub open spec fn count_live<S>(s: Seq<Option<S>>) -> nat
    decreases s.len(),
{
    if s.len() == 0 {
        0
    } else {
        count_live(s.drop_last()) + if s.last() is Some { 1nat } else { 0nat }
    }
}

/// The number of clear bits in `m`.
pub open spec fn count_clear(m: Seq<bool>) -> nat
    decreases m.len(),
{
    if m.len() == 0 {
        0
    } else {
        count_clear(m.drop_last()) + if m.last() { 0nat } else { 1nat }
    }
}

/// Setting one clear bit lowers the number of clear bits by one.
pub proof fn lemma_count_clear_set(m: Seq<bool>, i: int)
    requires
        0 <= i < m.len(),
        !m[i],
    ensures
        count_clear(m.update(i, true)) + 1 == count_clear(m),
    decreases m.len(),
{
    let u = m.update(i, true);
    if i == m.len() - 1 {
        assert(u.drop_last() =~= m.drop_last());
    } else {
        assert(u.drop_last() =~= m.drop_last().update(i, true));
        lemma_count_clear_set(m.drop_last(), i);
    }
}

/// One pool of slots for one storage type.
pub struct Pool<S> {
    slots: Vec<Option<S>>,
    marks: Vec<bool>,
    free: Vec<usize>,
}

impl<S> Pool<S> {
    /// The slots, each free (`None`) or holding a storage value.
    pub closed spec fn spec_slots(&self) -> Seq<Option<S>> {
        self.slots@
    }

    /// The mark bit of each slot.
    pub closed spec fn spec_marks(&self) -> Seq<bool> {
        self.marks@
    }

    /// Every slot has exactly one mark bit.
    pub open spec fn wf(&self) -> bool {
        self.spec_slots().len() == self.spec_marks().len()
    }

    /// Slot numbers fit in `usize`.
    pub proof fn lemma_len_bound(&self)
        ensures
            self.spec_slots().len() <= usize::MAX,
            self.spec_marks().len() <= usize::MAX,
    {
        assert(self.slots.len() == self.slots@.len());
        assert(self.marks.len() == self.marks@.len());
    }

    /// Slot `i` exists and is occupied.
    pub open spec fn live(&self, i: int) -> bool {
        0 <= i < self.spec_slots().len() && self.spec_slots()[i] is Some
    }

    /// The storage value in slot `i`, where it is occupied.
    pub open spec fn value_at(&self, i: int) -> S {
        self.spec_slots()[i]->Some_0
    }

    /// An empty pool.
    pub fn new() -> (r: Pool<S>)
        ensures
            r.wf(),
            r.spec_slots().len() == 0,
            r.spec_marks().len() == 0,
    {
        Pool { slots: Vec::new(), marks: Vec::new(), free: Vec::new() }
    }

    /// Places `s` in a free slot, or in a new slot at the end when none is
    /// free, with its mark bit clear.
    pub fn insert(&mut self, s: S) -> (i: usize)
        requires
            old(self).wf(),
        ensures
            final(self).wf(),
            i <= old(self).spec_slots().len(),
            i < old(self).spec_slots().len() ==> old(self).spec_slots()[i as int] is None,
            final(self).spec_slots() == if i < old(self).spec_slots().len() {
                old(self).spec_slots().update(i as int, Some(s))
            } else {
                old(self).spec_slots().push(Some(s))
            },
            final(self).spec_marks() == if i < old(self).spec_marks().len() {
                old(self).spec_marks().update(i as int, false)
            } else {
                old(self).spec_marks().push(false)
            },
    {
        while self.free.len() > 0
            invariant
                self.wf(),
                self.slots@ == old(self).slots@,
                self.marks@ == old(self).marks@,
            decreases self.free.len(),
        {
            let i = self.free.pop().unwrap();
            if i < self.slots.len() && self.slots[i].is_none() {
                self.slots.set(i, Some(s));
                self.marks.set(i, false);
                return i;
            }
        }
        let i = self.slots.len();
        self.slots.push(Some(s));
        self.marks.push(false);
        i
    }

    /// The storage value in occupied slot `i`.
    pub fn get(&self, i: usize) -> (r: &S)
        requires
            self.live(i as int),
        ensures
            *r == self.value_at(i as int),
    {
        self.slots[i].as_ref().unwrap()
    }

    /// Replaces the storage value in occupied slot `i`.
    pub fn set(&mut self, i: usize, s: S)
        requires
            old(self).wf(),
            old(self).live(i as int),
        ensures
            final(self).wf(),
            final(self).spec_slots() == old(self).spec_slots().update(i as int, Some(s)),
            final(self).spec_marks() == old(self).spec_marks(),
    {
        self.slots.set(i, Some(s));
    }

    /// The mark bit of slot `i`.
    pub fn is_marked(&self, i: usize) -> (r: bool)
        requires
            self.wf(),
            i < self.spec_slots().len(),
        ensures
            r == self.spec_marks()[i as int],
    {
        self.marks[i]
    }

    /// Sets the mark bit of slot `i`.
    pub fn set_mark(&mut self, i: usize)
        requires
            old(self).wf(),
            i < old(self).spec_slots().len(),
        ensures
            final(self).wf(),
            final(self).spec_slots() == old(self).spec_slots(),
            final(self).spec_marks() == old(self).spec_marks().update(i as int, true),
    {
        self.marks.set(i, true);
    }

    /// Clears every mark bit.
    pub fn clear_marks(&mut self)
        requires
            old(self).wf(),
        ensures
            final(self).wf(),
            final(self).spec_slots() == old(self).spec_slots(),
            final(self).spec_marks().len() == old(self).spec_marks().len(),
            forall|j: int| 0 <= j < final(self).spec_marks().len() ==> !final(self).spec_marks()[j],
    {
        let n = self.marks.len();
        let mut j: usize = 0;
        while j < n
            invariant
                self.wf(),
                self.slots@ == old(self).slots@,
                n == self.marks@.len(),
                j <= n,
                forall|k: int| 0 <= k < j ==> !self.marks@[k],
            decreases n - j,
        {
            self.marks.set(j, false);
            j = j + 1;
        }
    }

    /// Frees every occupied slot whose mark bit is clear, and makes every
    /// free slot available for reuse.
    pub fn sweep(&mut self)
        requires
            old(self).wf(),
        ensures
            final(self).wf(),
            final(self).spec_marks() == old(self).spec_marks(),
            final(self).spec_slots().len() == old(self).spec_slots().len(),
            forall|j: int|
                0 <= j < final(self).spec_slots().len() ==> #[trigger] final(self).spec_slots()[j]
                    == if old(self).spec_marks()[j] {
                    old(self).spec_slots()[j]
                } else {
                    None
                },
    {
        let n = self.slots.len();
        self.free = Vec::new();
        let mut j: usize = 0;
        while j < n
            invariant
                self.wf(),
                self.marks@ == old(self).marks@,
                n == self.slots@.len(),
                n == old(self).slots@.len(),
                j <= n,
                forall|k: int|
                    0 <= k < j ==> #[trigger] self.slots@[k] == if old(self).marks@[k] {
                        old(self).slots@[k]
                    } else {
                        None
                    },
                forall|k: int| j <= k < n ==> #[trigger] self.slots@[k] == old(self).slots@[k],
            decreases n - j,
        {
            if !self.marks[j] {
                self.slots.set(j, None);
                self.free.push(j);
            }
            j = j + 1;
        }
    }

    /// The number of occupied slots.
    pub fn live_count(&self) -> (r: usize)
        ensures
            r == count_live(self.spec_slots()),
    {
        let mut count: usize = 0;
        let mut j: usize = 0;
        while j < self.slots.len()
            invariant
                j <= self.slots@.len(),
                count == count_live(self.slots@.subrange(0, j as int)),
                count <= j,
            decreases self.slots@.len() - j,
        {
            assert(self.slots@.subrange(0, j + 1).drop_last() =~= self.slots@.subrange(0, j as int));
            if self.slots[j].is_some() {
                count = count + 1;
            }
            j = j + 1;
        }
        assert(self.slots@.subrange(0, j as int) =~= self.slots@);
        count
    }
}

} // verus!

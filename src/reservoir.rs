//! Algorithm R. The model: `sample_of(lines, draws, k)` is the reservoir after
//! the lines were offered in order, line `i` with the draw `draws[i]`, a value in
//! `[0, i]` that only counts once the reservoir is full.
use crate::lines::views;
use vstd::prelude::*;

verus! {

/// One step of Algorithm R: line `i` fills slot `i` while the reservoir is
/// filling; later it replaces slot `r` when `r < k`, and is dropped otherwise.
pub open spec fn step(res: Seq<Seq<u8>>, line: Seq<u8>, i: int, r: int, k: int) -> Seq<Seq<u8>> {
    if i < k {
        res.push(line)
    } else if r < k {
        res.update(r, line)
    } else {
        res
    }
}

/// The reservoir after offering `lines` with the draws `draws`, one per line.
pub open spec fn sample_of(lines: Seq<Seq<u8>>, draws: Seq<int>, k: int) -> Seq<Seq<u8>>
    decreases lines.len(),
{
    if lines.len() == 0 || draws.len() != lines.len() {
        seq![]
    } else {
        let n = lines.len() - 1;
        step(sample_of(lines.take(n), draws.take(n), k), lines[n], n, draws[n], k)
    }
}

/// A draw sequence that could have come from the sampler: one per line, the
/// draw for line `i` lying in `[0, i]`.
pub open spec fn valid_draws(draws: Seq<int>, n: int) -> bool {
    &&& draws.len() == n
    &&& forall|i: int| 0 <= i < n ==> 0 <= #[trigger] draws[i] <= i
}

pub open spec fn min(a: int, b: int) -> int {
    if a < b {
        a
    } else {
        b
    }
}

/// The sampling state: the reservoir slots, its fixed capacity and the number
/// of lines consumed.
pub struct Reservoir {
    slots: Vec<Vec<u8>>,
    capacity: usize,
    seen: usize,
    consumed: Ghost<Seq<Seq<u8>>>,
    draws: Ghost<Seq<int>>,
}

impl Reservoir {
    /// The lines offered so far, in order.
    pub closed spec fn consumed(&self) -> Seq<Seq<u8>> {
        self.consumed@
    }

    /// The draws that went with them.
    pub closed spec fn draws(&self) -> Seq<int> {
        self.draws@
    }

    pub closed spec fn spec_capacity(&self) -> int {
        self.capacity as int
    }

    /// The current contents, slot by slot.
    pub closed spec fn contents(&self) -> Seq<Seq<u8>> {
        views(self.slots@)
    }

    pub closed spec fn wf(&self) -> bool {
        &&& self.seen as int == self.consumed@.len()
        &&& valid_draws(self.draws@, self.consumed@.len() as int)
        &&& views(self.slots@) == sample_of(self.consumed@, self.draws@, self.capacity as int)
        &&& self.slots@.len() == min(self.consumed@.len() as int, self.capacity as int)
    }

    /// Whatever the draws were, the contents are the model's for those draws.
    pub proof fn lemma_state(&self)
        requires
            self.wf(),
        ensures
            valid_draws(self.draws(), self.consumed().len() as int),
            self.contents() == sample_of(self.consumed(), self.draws(), self.spec_capacity()),
            self.contents().len() == min(self.consumed().len() as int, self.spec_capacity()),
    {
    }

    /// An empty reservoir of capacity `size`.
    pub fn new(size: usize) -> (r: Self)
        ensures
            r.wf(),
            r.spec_capacity() == size,
            r.consumed() == Seq::<Seq<u8>>::empty(),
            r.draws() == Seq::<int>::empty(),
            r.contents() == Seq::<Seq<u8>>::empty(),
    {
        let r = Reservoir {
            slots: Vec::new(),
            capacity: size,
            seen: 0,
            consumed: Ghost(Seq::empty()),
            draws: Ghost(Seq::empty()),
        };
        assert(views(r.slots@) =~= Seq::<Seq<u8>>::empty());
        r
    }

    pub fn capacity(&self) -> (r: usize)
        ensures
            r == self.spec_capacity(),
    {
        self.capacity
    }

    /// The number of lines consumed.
    pub fn seen(&self) -> (r: usize)
        requires
            self.wf(),
        ensures
            r == self.consumed().len(),
    {
        self.seen
    }

    /// The number of occupied slots.
    pub fn len(&self) -> (r: usize)
        requires
            self.wf(),
        ensures
            r == self.contents().len(),
            r == min(self.consumed().len() as int, self.spec_capacity()),
    {
        proof {
            assert(views(self.slots@).len() == self.slots@.len());
        }
        self.slots.len()
    }

    /// Whether the next line needs a random draw: the reservoir is full.
    pub fn needs_draw(&self) -> (r: bool)
        requires
            self.wf(),
        ensures
            r == (self.consumed().len() >= self.spec_capacity()),
    {
        self.seen >= self.capacity
    }

    /// Offers the next line, with `r` drawn uniformly from `[0, i]` where `i` is
    /// the line's 0-based index (the number of lines consumed before it).
    pub fn offer(&mut self, line: Vec<u8>, r: usize)
        requires
            old(self).wf(),
            old(self).consumed().len() < usize::MAX,
            r <= old(self).consumed().len(),
        ensures
            final(self).wf(),
            final(self).spec_capacity() == old(self).spec_capacity(),
            final(self).consumed() == old(self).consumed().push(line@),
            final(self).draws() == old(self).draws().push(r as int),
            final(self).contents() == step(
                old(self).contents(),
                line@,
                old(self).consumed().len() as int,
                r as int,
                old(self).spec_capacity(),
            ),
    {
        let ghost old_slots = self.slots@;
        let ghost n = self.consumed@.len();
        let ghost lv = line@;
        proof {
            let lines = self.consumed@.push(line@);
            let draws = self.draws@.push(r as int);
            assert(lines.take(n as int) =~= self.consumed@);
            assert(draws.take(n as int) =~= self.draws@);
            self.consumed@ = lines;
            self.draws@ = draws;
        }
        if self.seen < self.capacity {
            self.slots.push(line);
            assert(views(self.slots@) =~= views(old_slots).push(lv));
        } else if r < self.capacity {
            self.slots.set(r, line);
            assert(views(self.slots@) =~= views(old_slots).update(r as int, lv));
        }
        self.seen = self.seen + 1;
    }

    /// Hands out the slots in slot order.
    pub fn into_lines(self) -> (r: Vec<Vec<u8>>)
        requires
            self.wf(),
        ensures
            views(r@) == self.contents(),
            views(r@) == sample_of(self.consumed(), self.draws(), self.spec_capacity()),
    {
        self.slots
    }
}

} // verus!

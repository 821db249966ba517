//! The sampler: a reservoir together with the random source that feeds it.
use crate::lines::views;
use crate::emit::{render, rendered};
use crate::lines::{lines_of, split_lines};
use crate::reservoir::{min, sample_of, step, valid_draws, Reservoir};
use rand::rngs::ThreadRng;
use rand::Rng;
use vstd::prelude::*;

verus! {

#[verifier::external_type_specification]
#[verifier::external_body]
pub struct ExThreadRng(ThreadRng);

/// Relies on rand::thread_rng: a handle to the thread-local generator, which
/// is seeded from system entropy. Nothing is known of its state.
pub assume_specification[ rand::thread_rng ]() -> ThreadRng;

/// Relies on rand::Rng::gen_range over the inclusive range `0..=bound`, which
/// is never empty: a value in `[0, bound]`, drawn without modulo bias.
#[verifier::external_body]
fn draw_up_to(rng: &mut ThreadRng, bound: usize) -> (r: usize)
    ensures
        r <= bound,
{
    rng.gen_range(0..=bound)
}

/// A reservoir of fixed capacity and the generator that owns its draws.
pub struct Sampler {
    reservoir: Reservoir,
    rng: ThreadRng,
}

impl Sampler {
    /// The lines offered so far.
    pub closed spec fn consumed(&self) -> Seq<Seq<u8>> {
        self.reservoir.consumed()
    }

    /// The draws made so far, one per line.
    pub closed spec fn draws(&self) -> Seq<int> {
        self.reservoir.draws()
    }

    pub closed spec fn spec_capacity(&self) -> int {
        self.reservoir.spec_capacity()
    }

    /// The current sample, slot by slot.
    pub closed spec fn contents(&self) -> Seq<Seq<u8>> {
        self.reservoir.contents()
    }

    pub closed spec fn wf(&self) -> bool {
        self.reservoir.wf()
    }

    /// Whatever the draws were, the state is the model's for those draws.
    pub proof fn lemma_state(&self)
        requires
            self.wf(),
        ensures
            valid_draws(self.draws(), self.consumed().len() as int),
            self.contents() == sample_of(self.consumed(), self.draws(), self.spec_capacity()),
            self.contents().len() == min(self.consumed().len() as int, self.spec_capacity()),
    {
        self.reservoir.lemma_state();
    }

    /// A sampler of capacity `size`, with a freshly seeded generator.
    pub fn new(size: usize) -> (r: Self)
        ensures
            r.wf(),
            r.spec_capacity() == size,
            r.consumed() == Seq::<Seq<u8>>::empty(),
    {
        Sampler { reservoir: Reservoir::new(size), rng: rand::thread_rng() }
    }

    /// The number of lines consumed.
    pub fn seen(&self) -> (r: usize)
        requires
            self.wf(),
        ensures
            r == self.consumed().len(),
    {
        self.reservoir.seen()
    }

    /// Consumes one line. A full reservoir draws `r` from `[0, i]` for the
    /// line's index `i` and puts the line in slot `r` when `r` is a slot.
    pub fn push(&mut self, line: Vec<u8>)
        requires
            old(self).wf(),
            old(self).consumed().len() < usize::MAX,
        ensures
            final(self).wf(),
            final(self).spec_capacity() == old(self).spec_capacity(),
            final(self).consumed() == old(self).consumed().push(line@),
            final(self).draws().drop_last() == old(self).draws(),
            0 <= final(self).draws().last() <= old(self).consumed().len(),
            final(self).contents() == step(
                old(self).contents(),
                line@,
                old(self).consumed().len() as int,
                final(self).draws().last(),
                old(self).spec_capacity(),
            ),
    {
        let i = self.reservoir.seen();
        let r: usize = if self.reservoir.needs_draw() {
            draw_up_to(&mut self.rng, i)
        } else {
            0
        };
        self.reservoir.offer(line, r);
        proof {
            assert(self.reservoir.draws().drop_last() =~= old(self).reservoir.draws());
        }
    }

    /// Ends the stream and hands out the sample in slot order.
    pub fn finish(self) -> (r: Vec<Vec<u8>>)
        requires
            self.wf(),
        ensures
            views(r@) == self.contents(),
    {
        self.reservoir.into_lines()
    }
}

/// Algorithm R over `lines` with the given draws, one per line, the draw for
/// line `i` in `[0, i]`.
pub fn sample_with_draws(lines: &Vec<Vec<u8>>, draws: &[usize], size: usize) -> (r: Vec<Vec<u8>>)
    requires
        lines@.len() == draws@.len(),
        forall|i: int| 0 <= i < draws@.len() ==> #[trigger] draws@[i] <= i,
    ensures
        views(r@) == sample_of(views(lines@), draw_values(draws@), size as int),
{
    let mut res = Reservoir::new(size);
    let mut i: usize = 0;
    while i < lines.len()
        invariant
            0 <= i <= lines@.len(),
            lines@.len() == draws@.len(),
            forall|j: int| 0 <= j < draws@.len() ==> #[trigger] draws@[j] <= j,
            res.wf(),
            res.spec_capacity() == size,
            res.consumed() == views(lines@).take(i as int),
            res.draws() == draw_values(draws@).take(i as int),
        decreases lines@.len() - i,
    {
        let line = lines[i].clone();
        assert(line@ =~= lines@[i as int]@);
        assert(draws@[i as int] <= i);
        res.offer(line, draws[i]);
        assert(views(lines@).take(i + 1) =~= views(lines@).take(i as int).push(line@));
        assert(draw_values(draws@).take(i + 1) =~= draw_values(draws@).take(i as int).push(
            draws@[i as int] as int,
        ));
        i += 1;
    }
    assert(views(lines@).take(i as int) =~= views(lines@));
    assert(draw_values(draws@).take(i as int) =~= draw_values(draws@));
    res.into_lines()
}

/// Draws as integers.
pub open spec fn draw_values(draws: Seq<usize>) -> Seq<int> {
    draws.map_values(|d: usize| d as int)
}

/// Samples `size` of `lines` uniformly at random. The result is the model's
/// sample for some valid draws.
pub fn sample(lines: &Vec<Vec<u8>>, size: usize) -> (r: Vec<Vec<u8>>)
    ensures
        exists|draws: Seq<int>|
            valid_draws(draws, lines@.len() as int) && views(r@) == sample_of(
                views(lines@),
                draws,
                size as int,
            ),
{
    let mut sampler = Sampler::new(size);
    let mut i: usize = 0;
    while i < lines.len()
        invariant
            0 <= i <= lines@.len(),
            sampler.wf(),
            sampler.spec_capacity() == size,
            sampler.consumed() == views(lines@).take(i as int),
        decreases lines@.len() - i,
    {
        let line = lines[i].clone();
        assert(line@ =~= lines@[i as int]@);
        sampler.push(line);
        assert(views(lines@).take(i + 1) =~= views(lines@).take(i as int).push(line@));
        i += 1;
    }
    assert(views(lines@).take(i as int) =~= views(lines@));
    proof {
        sampler.lemma_state();
    }
    let ghost draws = sampler.draws();
    let r = sampler.finish();
    assert(valid_draws(draws, lines@.len() as int) && views(r@) == sample_of(views(lines@), draws, size as int));
    r
}

/// Samples `size` lines of the text `input` and renders them, each followed by
/// a newline, in slot order.
pub fn sample_text(input: &[u8], size: usize) -> (r: Vec<u8>)
    ensures
        exists|draws: Seq<int>|
            valid_draws(draws, lines_of(input@).len() as int) && r@ == rendered(
                sample_of(lines_of(input@), draws, size as int),
            ),
{
    let lines = split_lines(input);
    let picked = sample(&lines, size);
    render(&picked)
}

} // verus!

//! What holds of every run of the sampler: each law is stated over the model
//! `sample_of` for every valid sequence of draws, so it holds whatever the
//! random source returned.
use crate::emit::rendered;
use crate::lines::{frame, lines_of, NEWLINE};
use crate::reservoir::{min, sample_of, step, valid_draws};
use vstd::prelude::*;

verus! {

proof fn lemma_prefix_draws(draws: Seq<int>, n: int)
    requires
        valid_draws(draws, n),
        n > 0,
    ensures
        valid_draws(draws.take(n - 1), n - 1),
{
    assert forall|i: int| 0 <= i < n - 1 implies 0 <= #[trigger] draws.take(n - 1)[i] <= i by {
        assert(draws.take(n - 1)[i] == draws[i]);
    }
}

/// The sample holds `min(N, K)` lines.
pub proof fn lemma_sample_len(lines: Seq<Seq<u8>>, draws: Seq<int>, k: int)
    requires
        k >= 0,
        valid_draws(draws, lines.len() as int),
    ensures
        sample_of(lines, draws, k).len() == min(lines.len() as int, k),
    decreases lines.len(),
{
    if lines.len() > 0 {
        let n = lines.len() - 1;
        lemma_prefix_draws(draws, lines.len() as int);
        lemma_sample_len(lines.take(n), draws.take(n), k);
    }
}

/// Every line of the sample is a line of the input.
pub proof fn lemma_sample_from_input(lines: Seq<Seq<u8>>, draws: Seq<int>, k: int)
    requires
        k >= 0,
        valid_draws(draws, lines.len() as int),
    ensures
        forall|j: int|
            0 <= j < sample_of(lines, draws, k).len() ==> lines.contains(
                #[trigger] sample_of(lines, draws, k)[j],
            ),
    decreases lines.len(),
{
    if lines.len() > 0 {
        let n = lines.len() - 1;
        let prev = sample_of(lines.take(n), draws.take(n), k);
        lemma_prefix_draws(draws, lines.len() as int);
        lemma_sample_from_input(lines.take(n), draws.take(n), k);
        lemma_sample_len(lines.take(n), draws.take(n), k);
        let s = sample_of(lines, draws, k);
        assert forall|j: int| 0 <= j < s.len() implies lines.contains(#[trigger] s[j]) by {
            if s[j] == lines[n] {
                assert(lines[n] == s[j]);
            } else {
                assert(s[j] == prev[j]);
                assert(lines.take(n).contains(prev[j]));
                let i = choose|i: int| 0 <= i < n && lines.take(n)[i] == prev[j];
                assert(lines[i] == s[j]);
            }
        }
    }
}

/// When the input lines are distinct, so are the lines of the sample.
pub proof fn lemma_sample_distinct(lines: Seq<Seq<u8>>, draws: Seq<int>, k: int)
    requires
        k >= 0,
        valid_draws(draws, lines.len() as int),
        lines.no_duplicates(),
    ensures
        sample_of(lines, draws, k).no_duplicates(),
    decreases lines.len(),
{
    if lines.len() > 0 {
        let n = lines.len() - 1;
        let pre = lines.take(n);
        let prev = sample_of(pre, draws.take(n), k);
        lemma_prefix_draws(draws, lines.len() as int);
        assert(pre.no_duplicates());
        lemma_sample_distinct(pre, draws.take(n), k);
        lemma_sample_from_input(pre, draws.take(n), k);
        lemma_sample_len(pre, draws.take(n), k);
        assert forall|j: int| 0 <= j < prev.len() implies #[trigger] prev[j] != lines[n] by {
            assert(pre.contains(prev[j]));
            let i = choose|i: int| 0 <= i < n && pre[i] == prev[j];
            assert(lines[i] == pre[i]);
        }
    }
}

/// With `K >= N` the sample is the input itself, in input order, so the two
/// hold the same multiset of lines.
pub proof fn lemma_sample_all(lines: Seq<Seq<u8>>, draws: Seq<int>, k: int)
    requires
        k >= lines.len(),
        valid_draws(draws, lines.len() as int),
    ensures
        sample_of(lines, draws, k) == lines,
        sample_of(lines, draws, k).to_multiset() == lines.to_multiset(),
    decreases lines.len(),
{
    if lines.len() > 0 {
        let n = lines.len() - 1;
        lemma_prefix_draws(draws, lines.len() as int);
        lemma_sample_all(lines.take(n), draws.take(n), k);
        assert(lines.take(n).push(lines[n]) =~= lines);
    }
}

/// With `K >= N`, sampling then sorting gives what sorting the input gives: an
/// arrangement of the sample is an arrangement of the input, and back.
pub proof fn lemma_sample_all_sorts_alike(lines: Seq<Seq<u8>>, draws: Seq<int>, k: int)
    requires
        k >= lines.len(),
        valid_draws(draws, lines.len() as int),
    ensures
        forall|t: Seq<Seq<u8>>|
            #[trigger] t.to_multiset() == sample_of(lines, draws, k).to_multiset()
                <==> t.to_multiset() == lines.to_multiset(),
{
    lemma_sample_all(lines, draws, k);
}

/// With `K = 0` the sample is empty, whatever the input.
pub proof fn lemma_sample_none(lines: Seq<Seq<u8>>, draws: Seq<int>)
    requires
        valid_draws(draws, lines.len() as int),
    ensures
        sample_of(lines, draws, 0) == Seq::<Seq<u8>>::empty(),
{
    lemma_sample_len(lines, draws, 0);
    assert(sample_of(lines, draws, 0) =~= Seq::<Seq<u8>>::empty());
}

/// An empty input gives an empty sample, whatever `K`.
pub proof fn lemma_empty_input(draws: Seq<int>, k: int)
    requires
        k >= 0,
        valid_draws(draws, 0),
    ensures
        sample_of(Seq::<Seq<u8>>::empty(), draws, k) == Seq::<Seq<u8>>::empty(),
{
}

/// With `K = 1` a non-empty input gives exactly one line.
pub proof fn lemma_sample_one(lines: Seq<Seq<u8>>, draws: Seq<int>)
    requires
        lines.len() >= 1,
        valid_draws(draws, lines.len() as int),
    ensures
        sample_of(lines, draws, 1).len() == 1,
{
    lemma_sample_len(lines, draws, 1);
}

/// The open line of `frame(s)` is the run of bytes after the last newline.
proof fn lemma_open_line(s: Seq<u8>)
    ensures
        s.len() >= frame(s).1.len(),
        s.skip(s.len() - frame(s).1.len()) == frame(s).1,
        forall|i: int| 0 <= i < frame(s).1.len() ==> #[trigger] frame(s).1[i] != NEWLINE,
        s.len() > frame(s).1.len() ==> s[s.len() - frame(s).1.len() - 1] == NEWLINE,
    decreases s.len(),
{
    if s.len() > 0 {
        let p = s.drop_last();
        lemma_open_line(p);
        if s.last() == NEWLINE {
            assert(s.skip(s.len() as int) =~= Seq::<u8>::empty());
        } else {
            let o = frame(p).1;
            assert(s.skip(s.len() - o.len() - 1) =~= p.skip(p.len() - o.len()).push(s.last()));
        }
    }
}

/// A final line without its newline is still a record: the last record is
/// the non-empty run of bytes after the last newline of the input.
pub proof fn lemma_unterminated_last_line(s: Seq<u8>)
    requires
        s.len() > 0,
        s.last() != NEWLINE,
    ensures
        lines_of(s).len() > 0,
        lines_of(s).last().len() > 0,
        s.skip(s.len() - lines_of(s).last().len()) == lines_of(s).last(),
        forall|i: int| 0 <= i < lines_of(s).last().len() ==> #[trigger] lines_of(s).last()[i] != NEWLINE,
        s.len() > lines_of(s).last().len() ==> s[s.len() - lines_of(s).last().len() - 1] == NEWLINE,
{
    lemma_open_line(s);
}

/// `rec` followed by a newline stands in `out` at offset `at`.
pub open spec fn terminated_at(out: Seq<u8>, rec: Seq<u8>, at: int) -> bool {
    &&& 0 <= at
    &&& at + rec.len() + 1 <= out.len()
    &&& out.subrange(at, at + rec.len() + 1) == rec.push(NEWLINE)
}

/// In the output every record stands followed by a newline, right after the
/// output of the records before it.
pub proof fn lemma_rendered_terminated(records: Seq<Seq<u8>>)
    ensures
        forall|j: int|
            0 <= j < records.len() ==> terminated_at(
                rendered(records),
                #[trigger] records[j],
                rendered(records.take(j)).len() as int,
            ),
    decreases records.len(),
{
    if records.len() > 0 {
        let n = records.len() - 1;
        let p = records.drop_last();
        lemma_rendered_terminated(p);
        let out = rendered(records);
        assert forall|j: int| 0 <= j < records.len() implies terminated_at(
            out,
            #[trigger] records[j],
            rendered(records.take(j)).len() as int,
        ) by {
            if j == n {
                assert(records.take(j) =~= p);
                let at = rendered(p).len() as int;
                assert(out.subrange(at, at + records[j].len() + 1) =~= records[j].push(NEWLINE));
            } else {
                assert(records[j] == p[j]);
                assert(records.take(j) =~= p.take(j));
                let at = rendered(p.take(j)).len() as int;
                assert(terminated_at(rendered(p), p[j], at));
                assert(out.subrange(at, at + records[j].len() + 1) =~= rendered(p).subrange(
                    at,
                    at + p[j].len() + 1,
                ));
            }
        }
    }
}

} // verus!

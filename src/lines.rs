//! Line framing: a line is a maximal run of bytes ended by one newline byte or
//! by the end of the stream. Carriage returns are kept as ordinary bytes.
use vstd::prelude::*;

verus! {

/// The byte that ends a line.
pub const NEWLINE: u8 = 10;

/// The views of a sequence of byte vectors.
pub open spec fn views(v: Seq<Vec<u8>>) -> Seq<Seq<u8>> {
    v.map_values(|l: Vec<u8>| l@)
}

/// Reading `s` from the start: the lines that a newline has ended, and the
/// bytes of the line that is still open.
pub open spec fn frame(s: Seq<u8>) -> (Seq<Seq<u8>>, Seq<u8>)
    decreases s.len(),
{
    if s.len() == 0 {
        (seq![], seq![])
    } else {
        let (done, open) = frame(s.drop_last());
        if s.last() == NEWLINE {
            (done.push(open), seq![])
        } else {
            (done, open.push(s.last()))
        }
    }
}

/// The line records of `s`: every line that a newline ends, then the final
/// unterminated line when there is one.
pub open spec fn lines_of(s: Seq<u8>) -> Seq<Seq<u8>> {
    let (done, open) = frame(s);
    if open.len() == 0 {
        done
    } else {
        done.push(open)
    }
}

/// Incremental line framer: bytes go in by chunks, complete lines come out.
/// Only the open line is held between chunks.
pub struct LineSplitter {
    open: Vec<u8>,
    consumed: Ghost<Seq<u8>>,
    emitted: Ghost<Seq<Seq<u8>>>,
}

impl LineSplitter {
    /// Everything fed so far.
    pub closed spec fn consumed(&self) -> Seq<u8> {
        self.consumed@
    }

    /// The lines handed out so far.
    pub closed spec fn emitted(&self) -> Seq<Seq<u8>> {
        self.emitted@
    }

    pub closed spec fn wf(&self) -> bool {
        frame(self.consumed@) == (self.emitted@, self.open@)
    }

    pub fn new() -> (r: Self)
        ensures
            r.wf(),
            r.consumed() == Seq::<u8>::empty(),
            r.emitted() == Seq::<Seq<u8>>::empty(),
    {
        LineSplitter { open: Vec::new(), consumed: Ghost(Seq::empty()), emitted: Ghost(Seq::empty()) }
    }

    /// Feeds a chunk of bytes and returns the lines that it completes.
    pub fn feed(&mut self, chunk: &[u8]) -> (r: Vec<Vec<u8>>)
        requires
            old(self).wf(),
        ensures
            final(self).wf(),
            final(self).consumed() == old(self).consumed() + chunk@,
            final(self).emitted() == old(self).emitted() + views(r@),
    {
        let mut out: Vec<Vec<u8>> = Vec::new();
        let ghost start = self.consumed@;
        let ghost before = self.emitted@;
        let mut i: usize = 0;
        while i < chunk.len()
            invariant
                0 <= i <= chunk@.len(),
                self.consumed@ == start + chunk@.take(i as int),
                self.emitted@ == before + views(out@),
                frame(self.consumed@) == (self.emitted@, self.open@),
            decreases chunk@.len() - i,
        {
            let b = chunk[i];
            let ghost prev = self.consumed@;
            proof {
                assert(start + chunk@.take(i + 1) =~= (start + chunk@.take(i as int)).push(b));
                self.consumed@ = prev.push(b);
                assert(self.consumed@.drop_last() =~= prev);
            }
            if b == NEWLINE {
                let mut line: Vec<u8> = Vec::new();
                std::mem::swap(&mut line, &mut self.open);
                proof {
                    self.emitted@ = self.emitted@.push(line@);
                }
                let ghost prev_out = out@;
                out.push(line);
                assert(views(out@) =~= views(prev_out).push(line@));
            } else {
                self.open.push(b);
            }
            i += 1;
        }
        assert(chunk@.take(chunk@.len() as int) =~= chunk@);
        out
    }

    /// Ends the stream: the final line, when it lacks its newline.
    pub fn finish(self) -> (r: Option<Vec<u8>>)
        requires
            self.wf(),
        ensures
            match r {
                None => self.emitted() == lines_of(self.consumed()),
                Some(l) => self.emitted().push(l@) == lines_of(self.consumed()),
            },
    {
        if self.open.len() == 0 {
            assert(self.open@ =~= Seq::<u8>::empty());
            None
        } else {
            Some(self.open)
        }
    }
}

/// Splits a whole buffer into its line records.
pub fn split_lines(input: &[u8]) -> (r: Vec<Vec<u8>>)
    ensures
        views(r@) == lines_of(input@),
{
    let mut splitter = LineSplitter::new();
    let mut r = splitter.feed(input);
    assert(Seq::<u8>::empty() + input@ =~= input@);
    assert(Seq::<Seq<u8>>::empty() + views(r@) =~= views(r@));
    let ghost done = r@;
    match splitter.finish() {
        None => {},
        Some(last) => {
            r.push(last);
            assert(views(r@) =~= views(done).push(last@));
        },
    }
    r
}

} // verus!

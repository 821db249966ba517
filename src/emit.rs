//! Emission: each record of the sample followed by one newline, in slot order.
use crate::lines::{views, NEWLINE};
use vstd::prelude::*;

verus! {

/// The output bytes for `records`: each record followed by a newline.
pub open spec fn rendered(records: Seq<Seq<u8>>) -> Seq<u8>
    decreases records.len(),
{
    if records.len() == 0 {
        seq![]
    } else {
        rendered(records.drop_last()) + records.last().push(NEWLINE)
    }
}

/// Renders `records` as newline-terminated output.
pub fn render(records: &Vec<Vec<u8>>) -> (r: Vec<u8>)
    ensures
        r@ == rendered(views(records@)),
{
    let mut out: Vec<u8> = Vec::new();
    let mut i: usize = 0;
    while i < records.len()
        invariant
            0 <= i <= records@.len(),
            out@ == rendered(views(records@).take(i as int)),
        decreases records@.len() - i,
    {
        let rec = &records[i];
        let ghost before = out@;
        let mut j: usize = 0;
        while j < rec.len()
            invariant
                0 <= j <= rec@.len(),
                out@ == before + rec@.take(j as int),
            decreases rec@.len() - j,
        {
            out.push(rec[j]);
            assert(before + rec@.take(j + 1) =~= (before + rec@.take(j as int)).push(rec@[j as int]));
            j += 1;
        }
        out.push(NEWLINE);
        proof {
            let s = views(records@).take(i + 1);
            assert(s.drop_last() =~= views(records@).take(i as int));
            assert(rec@.take(j as int) =~= rec@);
            assert(out@ =~= rendered(s.drop_last()) + s.last().push(NEWLINE));
        }
        i += 1;
    }
    assert(views(records@).take(i as int) =~= views(records@));
    out
}

} // verus!

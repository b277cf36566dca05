//! Rows of labeled values.
//!
//! A row is a list of `(parameter index, binary32 pattern)` pairs; a
//! parameter occurs at most once.  Lookups take the first entry with the
//! sought index.

use vstd::prelude::*;

verus! {

/// The first value keyed `p` in a row, if any.
pub open spec fn row_lookup(row: Seq<(usize, u32)>, p: usize) -> Option<u32>
    decreases row.len(),
{
    if row.len() == 0 {
        None
    } else if row[0].0 == p {
        Some(row[0].1)
    } else {
        row_lookup(row.drop_first(), p)
    }
}

/// Find the first value keyed `p` in a row.
pub fn lookup_row(row: &Vec<(usize, u32)>, p: usize) -> (r: Option<u32>)
    ensures
        r == row_lookup(row@, p),
{
    let mut i: usize = 0;
    proof {
        assert(row@.skip(0) =~= row@);
    }
    while i < row.len()
        invariant
            i <= row@.len(),
            row_lookup(row@, p) == row_lookup(row@.skip(i as int), p),
        decreases row@.len() - i,
    {
        proof {
            assert(row@.skip(i as int)[0] == row@[i as int]);
            assert(row@.skip(i as int).drop_first() =~= row@.skip(i as int + 1));
        }
        if row[i].0 == p {
            return Some(row[i].1);
        }
        i = i + 1;
    }
    proof {
        assert(row@.skip(i as int).len() == 0);
    }
    None
}

/// Two rows with the same keys in the same places resolve the same lookups
/// to the same positions: in particular a lookup succeeds in one exactly
/// when it succeeds in the other.
pub proof fn lemma_lookup_same_keys(a: Seq<(usize, u32)>, b: Seq<(usize, u32)>, p: usize)
    requires
        a.len() == b.len(),
        forall|j: int| 0 <= j < a.len() ==> (#[trigger] a[j]).0 == (#[trigger] b[j]).0,
    ensures
        row_lookup(a, p) is Some <==> row_lookup(b, p) is Some,
    decreases a.len(),
{
    if a.len() > 0 && a[0].0 != p {
        lemma_lookup_same_keys(a.drop_first(), b.drop_first(), p);
    }
}

} // verus!

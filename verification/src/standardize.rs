//! Per-parameter standardization of training rows.
//!
//! A fitted `Standardizer` keeps, for each parameter index, the mean of its
//! values and a scale (the square root of their variance, approximated by
//! a fixed Newton iteration over the trusted arithmetic).  Standardizing
//! subtracts the mean and divides by the scale; destandardizing inverts
//! that.  A parameter whose scale is the zero pattern is only shifted, so
//! the two directions stay inverses of each other.

use vstd::prelude::*;
use crate::numeric::{
    add_of, div_of, mul_of, sub_of, of_count, F_TWO, F_ZERO,
    add_bits, div_bits, mul_bits, sub_bits, count_bits,
};
use crate::rows::{row_lookup, lookup_row};

verus! {

/// Fitted statistics: `(parameter index, mean pattern, scale pattern)`,
/// with distinct indices.
pub struct Standardizer {
    pub stats: Vec<(usize, u32, u32)>,
}

/// The first statistics entry for `p`, if any.
pub open spec fn stats_lookup(stats: Seq<(usize, u32, u32)>, p: usize) -> Option<(u32, u32)>
    decreases stats.len(),
{
    if stats.len() == 0 {
        None
    } else if stats[0].0 == p {
        Some((stats[0].1, stats[0].2))
    } else {
        stats_lookup(stats.drop_first(), p)
    }
}

/// Statistics entries carry distinct parameter indices.
pub open spec fn stats_wf(stats: Seq<(usize, u32, u32)>) -> bool {
    forall|j: int, k: int|
        0 <= j < k < stats.len() ==> (#[trigger] stats[j]).0 != (#[trigger] stats[k]).0
}

/// The standardized value: shifted by the mean and, unless the scale is the
/// zero pattern, divided by the scale.  Without fitted statistics the value
/// passes through unchanged.
pub open spec fn std_tx(st: Option<(u32, u32)>, v: u32) -> u32 {
    match st {
        None => v,
        Some((mean, scale)) => if scale == F_ZERO {
            sub_of(v, mean)
        } else {
            div_of(sub_of(v, mean), scale)
        },
    }
}

/// The destandardized value: the inverse transform of `std_tx`.
pub open spec fn destd_tx(st: Option<(u32, u32)>, v: u32) -> u32 {
    match st {
        None => v,
        Some((mean, scale)) => if scale == F_ZERO {
            add_of(v, mean)
        } else {
            add_of(mul_of(v, scale), mean)
        },
    }
}

/// A standardized row: every entry keeps its index, its value transformed
/// under that index's statistics.
pub open spec fn std_row(stats: Seq<(usize, u32, u32)>, row: Seq<(usize, u32)>) -> Seq<
    (usize, u32)> {
    Seq::new(row.len(), |j: int| (row[j].0, std_tx(stats_lookup(stats, row[j].0), row[j].1)))
}

/// The sum of the first `k` patterns of a sequence.
pub open spec fn sum_bits_of(vals: Seq<u32>, k: nat) -> u32
    decreases k,
{
    if k == 0 {
        F_ZERO
    } else {
        add_of(sum_bits_of(vals, (k - 1) as nat), vals[k - 1])
    }
}

/// The mean of a value sequence.
pub open spec fn mean_of(vals: Seq<u32>) -> u32 {
    div_of(sum_bits_of(vals, vals.len()), of_count(vals.len() as u64))
}

/// The sum of squared deviations from `mean` over the first `k` values.
pub open spec fn sq_dev_of(vals: Seq<u32>, mean: u32, k: nat) -> u32
    decreases k,
{
    if k == 0 {
        F_ZERO
    } else {
        let d = sub_of(vals[k - 1], mean);
        add_of(sq_dev_of(vals, mean, (k - 1) as nat), mul_of(d, d))
    }
}

/// The variance of a value sequence about `mean`.
pub open spec fn variance_of(vals: Seq<u32>, mean: u32) -> u32 {
    div_of(sq_dev_of(vals, mean, vals.len()), of_count(vals.len() as u64))
}

/// `k` Newton steps for the square root of `v`, from iterate `y`.
pub open spec fn newton_of(v: u32, y: u32, k: nat) -> u32
    decreases k,
{
    if k == 0 {
        y
    } else {
        newton_of(v, div_of(add_of(y, div_of(v, y)), F_TWO), (k - 1) as nat)
    }
}

/// The scale drawn from a variance pattern: zero for the zero pattern, else
/// eight Newton steps from a bit-level first guess.
pub open spec fn scale_of(variance: u32) -> u32 {
    if variance == F_ZERO {
        F_ZERO
    } else {
        newton_of(variance, ((variance >> 1) + 0x1FC0_0000) as u32, 8)
    }
}

/// Compute `scale_of` at runtime.
fn newton_scale(variance: u32) -> (r: u32)
    ensures
        r == scale_of(variance),
{
    if variance == F_ZERO {
        return F_ZERO;
    }
    proof {
        assert(variance >> 1u32 <= 0x7FFF_FFFFu32) by (bit_vector);
    }
    let mut y: u32 = (variance >> 1) + 0x1FC0_0000;
    let ghost y0 = y;
    let mut k: usize = 0;
    while k < 8
        invariant
            k <= 8,
            newton_of(variance, y, (8 - k) as nat) == newton_of(variance, y0, 8),
        decreases 8 - k,
    {
        y = div_bits(add_bits(y, div_bits(variance, y)), F_TWO);
        k = k + 1;
    }
    y
}

/// Find the first statistics entry for `p`.
fn lookup_stats(stats: &Vec<(usize, u32, u32)>, p: usize) -> (r: Option<(u32, u32)>)
    ensures
        r == stats_lookup(stats@, p),
{
    let mut i: usize = 0;
    proof {
        assert(stats@.skip(0) =~= stats@);
    }
    while i < stats.len()
        invariant
            i <= stats@.len(),
            stats_lookup(stats@, p) == stats_lookup(stats@.skip(i as int), p),
        decreases stats@.len() - i,
    {
        proof {
            assert(stats@.skip(i as int)[0] == stats@[i as int]);
            assert(stats@.skip(i as int).drop_first() =~= stats@.skip(i as int + 1));
        }
        if stats[i].0 == p {
            return Some((stats[i].1, stats[i].2));
        }
        i = i + 1;
    }
    proof {
        assert(stats@.skip(i as int).len() == 0);
    }
    None
}

/// The values of parameter `p` over the first `k` rows holding it, in row
/// order.
pub open spec fn col_of(data: Seq<Vec<(usize, u32)>>, p: usize, k: nat) -> Seq<u32>
    decreases k,
{
    if k == 0 {
        Seq::empty()
    } else {
        let rest = col_of(data, p, (k - 1) as nat);
        match row_lookup(data[k - 1]@, p) {
            Some(v) => rest.push(v),
            None => rest,
        }
    }
}

/// A fitted entry holds the mean of its parameter's column and the scale
/// drawn from the column's variance.
pub open spec fn fitted_entry(st: (usize, u32, u32), data: Seq<Vec<(usize, u32)>>) -> bool {
    let col = col_of(data, st.0, data.len());
    &&& st.1 == mean_of(col)
    &&& st.2 == scale_of(variance_of(col, mean_of(col)))
}

/// Every standardized row of the data, as plain sequences.
pub open spec fn std_rows(
    stats: Seq<(usize, u32, u32)>,
    data: Seq<Vec<(usize, u32)>>,
) -> Seq<Seq<(usize, u32)>> {
    Seq::new(data.len(), |i: int| std_row(stats, data[i]@))
}

/// Whether `p` occurs in some row of the data.
pub open spec fn param_of_data(p: usize, data: Seq<Vec<(usize, u32)>>) -> bool {
    exists|i: int, j: int|
        0 <= i < data.len() && 0 <= j < data[i]@.len() && (#[trigger] data[i]@[j]).0 == p
}

/// A standardizer correctly fitted to the data: distinct entries, one for
/// every parameter the data holds and for no other, each carrying its
/// column's mean and the scale drawn from its variance.
pub open spec fn fitted_to(stats: Seq<(usize, u32, u32)>, data: Seq<Vec<(usize, u32)>>) -> bool {
    &&& stats_wf(stats)
    &&& covers(stats, data)
    &&& forall|e: int| 0 <= e < stats.len() ==> fitted_entry(#[trigger] stats[e], data)
    &&& forall|e: int| 0 <= e < stats.len() ==> param_of_data((#[trigger] stats[e]).0, data)
}

/// Every parameter of every row has a fitted entry.
pub open spec fn covers(stats: Seq<(usize, u32, u32)>, data: Seq<Vec<(usize, u32)>>) -> bool {
    forall|i: int, j: int|
        0 <= i < data.len() && 0 <= j < data[i]@.len() ==> stats_lookup(
            stats,
            (#[trigger] data[i]@[j]).0,
        ) is Some
}

impl Standardizer {
    /// Fit one mean and scale per parameter index appearing in the rows:
    /// the mean of the index's values over the rows holding it, and the
    /// scale drawn from their variance.
    pub fn new(data: &Vec<Vec<(usize, u32)>>) -> (r: Standardizer)
        ensures
            fitted_to(r.stats@, data@),
    {
        let mut stats: Vec<(usize, u32, u32)> = Vec::new();
        let mut i: usize = 0;
        while i < data.len()
            invariant
                i <= data@.len(),
                stats_wf(stats@),
                forall|e: int| 0 <= e < stats@.len() ==> fitted_entry(#[trigger] stats@[e], data@),
                forall|e: int| 0 <= e < stats@.len() ==> param_of_data((#[trigger] stats@[e]).0, data@),
                forall|i2: int, j2: int|
                    0 <= i2 < i && 0 <= j2 < data@[i2]@.len() ==> stats_lookup(
                        stats@,
                        (#[trigger] data@[i2]@[j2]).0,
                    ) is Some,
            decreases data@.len() - i,
        {
            let row = &data[i];
            let mut j: usize = 0;
            while j < row.len()
                invariant
                    i < data@.len(),
                    row == &data@[i as int],
                    j <= row@.len(),
                    stats_wf(stats@),
                    forall|e: int|
                        0 <= e < stats@.len() ==> fitted_entry(#[trigger] stats@[e], data@),
                    forall|e: int|
                        0 <= e < stats@.len() ==> param_of_data(
                            (#[trigger] stats@[e]).0,
                            data@,
                        ),
                    forall|i2: int, j2: int|
                        0 <= i2 < i && 0 <= j2 < data@[i2]@.len() ==> stats_lookup(
                            stats@,
                            (#[trigger] data@[i2]@[j2]).0,
                        ) is Some,
                    forall|j2: int|
                        0 <= j2 < j ==> stats_lookup(
                            stats@,
                            (#[trigger] row@[j2]).0,
                        ) is Some,
                decreases row@.len() - j,
            {
                let p = row[j].0;
                match lookup_stats(&stats, p) {
                    Some(_) => {},
                    None => {
                        let (mean, scale) = fit_one(data, p);
                        let ghost stats0 = stats@;
                        stats.push((p, mean, scale));
                        proof {
                            lemma_stats_lookup_push(stats0, p, mean, scale, p);
                            lemma_stats_lookup_some_iff(stats0, p);
                            assert(data@[i as int]@[j as int].0 == p);
                            assert(param_of_data(p, data@));
                            assert forall|i2: int, j2: int|
                                0 <= i2 < data@.len() && 0 <= j2 < data@[i2]@.len()
                                    && stats_lookup(stats0, (data@[i2]@[j2]).0)
                                    is Some implies stats_lookup(
                                stats@,
                                (#[trigger] data@[i2]@[j2]).0,
                            ) is Some by {
                                lemma_stats_lookup_push(stats0, p, mean, scale, data@[i2]@[j2].0);
                            }
                            assert forall|j2: int|
                                0 <= j2 < row@.len() && stats_lookup(stats0, (row@[j2]).0)
                                    is Some implies stats_lookup(
                                stats@,
                                (#[trigger] row@[j2]).0,
                            ) is Some by {
                                lemma_stats_lookup_push(stats0, p, mean, scale, row@[j2].0);
                            }
                            assert forall|e1: int, e2: int|
                                0 <= e1 < e2 < stats@.len() implies (#[trigger] stats@[e1]).0 != (
                            #[trigger] stats@[e2]).0 by {
                                if e2 == stats@.len() - 1 {
                                    assert(stats@[e1] == stats0[e1]);
                                }
                            }
                        }
                    },
                }
                j = j + 1;
            }
            i = i + 1;
        }
        Standardizer { stats }
    }

    /// Standardize one row: each entry keeps its index, its value
    /// transformed under that index's fitted statistics.
    pub fn standardized_value(&self, row: &Vec<(usize, u32)>) -> (r: Vec<(usize, u32)>)
        ensures
            r@ == std_row(self.stats@, row@),
    {
        let mut out: Vec<(usize, u32)> = Vec::new();
        let mut j: usize = 0;
        while j < row.len()
            invariant
                j <= row@.len(),
                out@ =~= std_row(self.stats@, row@).subrange(0, j as int),
            decreases row@.len() - j,
        {
            let (p, v) = row[j];
            let st = lookup_stats(&self.stats, p);
            let nv = match st {
                None => v,
                Some((mean, scale)) => {
                    let shifted = sub_bits(v, mean);
                    if scale == F_ZERO {
                        shifted
                    } else {
                        div_bits(shifted, scale)
                    }
                },
            };
            out.push((p, nv));
            proof {
                assert(out@ =~= std_row(self.stats@, row@).subrange(0, j + 1));
            }
            j = j + 1;
        }
        proof {
            assert(out@ =~= std_row(self.stats@, row@));
        }
        out
    }

    /// Standardize every row.
    pub fn standardized_values(&self, data: &Vec<Vec<(usize, u32)>>) -> (r: Vec<
        Vec<(usize, u32)>>)
        ensures
            r@.len() == data@.len(),
            forall|i: int| 0 <= i < data@.len() ==> (#[trigger] r@[i])@ == std_row(
                self.stats@,
                data@[i]@,
            ),
    {
        let mut out: Vec<Vec<(usize, u32)>> = Vec::new();
        let mut i: usize = 0;
        while i < data.len()
            invariant
                i <= data@.len(),
                out@.len() == i,
                forall|i2: int| 0 <= i2 < i ==> (#[trigger] out@[i2])@ == std_row(
                    self.stats@,
                    data@[i2]@,
                ),
            decreases data@.len() - i,
        {
            let row = self.standardized_value(&data[i]);
            out.push(row);
            i = i + 1;
        }
        out
    }

    /// Invert the transform for one parameter's value.
    pub fn unstandardize_value(&self, p: usize, v: u32) -> (r: u32)
        ensures
            r == destd_tx(stats_lookup(self.stats@, p), v),
    {
        match lookup_stats(&self.stats, p) {
            None => v,
            Some((mean, scale)) => {
                if scale == F_ZERO {
                    add_bits(v, mean)
                } else {
                    add_bits(mul_bits(v, scale), mean)
                }
            },
        }
    }
}

/// The mean and scale of parameter `p` over the rows holding it.
fn fit_one(data: &Vec<Vec<(usize, u32)>>, p: usize) -> (r: (u32, u32))
    ensures
        fitted_entry((p, r.0, r.1), data@),
{
    let mut vals: Vec<u32> = Vec::new();
    let mut i: usize = 0;
    while i < data.len()
        invariant
            i <= data@.len(),
            vals@ == col_of(data@, p, i as nat),
        decreases data@.len() - i,
    {
        match lookup_row(&data[i], p) {
            Some(v) => { vals.push(v); },
            None => {},
        }
        i = i + 1;
    }
    let n = vals.len();
    let mut sum: u32 = F_ZERO;
    let mut k: usize = 0;
    while k < vals.len()
        invariant
            k <= vals@.len(),
            sum == sum_bits_of(vals@, k as nat),
        decreases vals@.len() - k,
    {
        sum = add_bits(sum, vals[k]);
        k = k + 1;
    }
    let mean = div_bits(sum, count_bits(n as u64));
    let mut dev: u32 = F_ZERO;
    let mut k2: usize = 0;
    while k2 < vals.len()
        invariant
            k2 <= vals@.len(),
            dev == sq_dev_of(vals@, mean, k2 as nat),
        decreases vals@.len() - k2,
    {
        let d = sub_bits(vals[k2], mean);
        dev = add_bits(dev, mul_bits(d, d));
        k2 = k2 + 1;
    }
    let variance = div_bits(dev, count_bits(n as u64));
    let scale = newton_scale(variance);
    proof {
        assert(mean == mean_of(vals@));
        assert(variance == variance_of(vals@, mean));
    }
    (mean, scale)
}

/// A lookup succeeds exactly when some entry carries the sought index.
proof fn lemma_stats_lookup_some_iff(stats: Seq<(usize, u32, u32)>, p: usize)
    ensures
        stats_lookup(stats, p) is Some <==> exists|e: int|
            0 <= e < stats.len() && (#[trigger] stats[e]).0 == p,
    decreases stats.len(),
{
    if stats.len() > 0 && stats[0].0 != p {
        lemma_stats_lookup_some_iff(stats.drop_first(), p);
        if stats_lookup(stats, p) is Some {
            let e = choose|e: int|
                0 <= e < stats.drop_first().len() && stats.drop_first()[e].0 == p;
            assert(stats[e + 1].0 == p);
        }
        if exists|e: int| 0 <= e < stats.len() && (#[trigger] stats[e]).0 == p {
            let e = choose|e: int| 0 <= e < stats.len() && (#[trigger] stats[e]).0 == p;
            assert(stats.drop_first()[e - 1].0 == p);
        }
    }
}

/// Pushing a new entry keeps every earlier lookup and resolves the new
/// index.
proof fn lemma_stats_lookup_push(
    stats: Seq<(usize, u32, u32)>,
    p: usize,
    mean: u32,
    scale: u32,
    q: usize,
)
    ensures
        stats_lookup(stats, q) is Some ==> stats_lookup(stats.push((p, mean, scale)), q)
            == stats_lookup(stats, q),
        stats_lookup(stats.push((p, mean, scale)), p) is Some,
    decreases stats.len(),
{
    if stats.len() == 0 {
        assert(stats.push((p, mean, scale)).drop_first() =~= Seq::<(usize, u32, u32)>::empty());
    } else {
        lemma_stats_lookup_push(stats.drop_first(), p, mean, scale, q);
        assert(stats.push((p, mean, scale)).drop_first() =~= stats.drop_first().push(
            (p, mean, scale),
        ));
    }
}

} // verus!

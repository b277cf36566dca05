//! The evolution loop: score, rank, cull, breed, refill, refine.
//!
//! Each cycle scores every unscored creature against the standardized
//! rows, records the champion (a creature holding the key-least error),
//! drops every creature at or above the median error, breeds a fast
//! mutant from every survivor below the midpoint of the least and median
//! errors, and restores the population to its fixed size.  After the last
//! cycle a refinement pass narrows the best champion by local search.

use vstd::prelude::*;
use crate::creature::{
    avoids_param, creature_calc, creature_like, lemma_fresh_avoids, lemma_like_avoids,
    lemma_mutant_avoids, mutant_of, opts_ok, speed_sd, Creature, LayerModifiers, MutateSpeed,
};
use crate::standardize::{destd_tx, fitted_to, stats_lookup, std_row, std_rows, Standardizer};
use crate::draws::{draws_wf, Draws};
use crate::numeric::{
    add_of, div_of, mul_of, sub_of, of_count, flt, key_le, F_TWO, F_ZERO, PLATEAU_RATIO,
    add_bits, div_bits, mul_bits, sub_bits, count_bits, lt_bits,
};
use crate::rows::{row_lookup, lookup_row};
use crate::sorting::{by_key, lemma_by_key_total_ordering, sort_patterns, lemma_sorted_first_least};
use rayon::iter::{IntoParallelRefMutIterator, ParallelIterator};

verus! {

/// The squared difference between a creature's output on a row and the
/// row's target value.
pub open spec fn sq_err(eqs: Seq<LayerModifiers>, row: Seq<(usize, u32)>, target: usize) -> u32 {
    let d = sub_of(creature_calc(eqs, row), row_lookup(row, target).unwrap());
    mul_of(d, d)
}

/// The sum of squared errors over the first `k` rows.
pub open spec fn err_accum(
    eqs: Seq<LayerModifiers>,
    rows: Seq<Vec<(usize, u32)>>,
    target: usize,
    k: nat,
) -> u32
    decreases k,
{
    if k == 0 {
        F_ZERO
    } else {
        add_of(err_accum(eqs, rows, target, (k - 1) as nat), sq_err(eqs, rows[k - 1]@, target))
    }
}

/// A creature's score: the mean squared error over the rows.
pub open spec fn error_sum_of(
    eqs: Seq<LayerModifiers>,
    rows: Seq<Vec<(usize, u32)>>,
    target: usize,
) -> u32 {
    div_of(err_accum(eqs, rows, target, rows.len()), of_count(rows.len() as u64))
}

/// Every row carries the target parameter.
pub open spec fn rows_have_target(rows: Seq<Vec<(usize, u32)>>, target: usize) -> bool {
    forall|i: int| 0 <= i < rows.len() ==> row_lookup((#[trigger] rows[i])@, target) is Some
}

/// Every creature carries a cached score.
pub open spec fn all_scored(s: Seq<Creature>) -> bool {
    forall|i: int| 0 <= i < s.len() ==> (#[trigger] s[i]).cached_error_sum is Some
}

/// The cached scores of a population, in population order.
pub open spec fn errs_of(s: Seq<Creature>) -> Seq<u32> {
    Seq::new(s.len(), |i: int| s[i].cached_error_sum.unwrap())
}

/// Every generation counter is at most `cap`.
pub open spec fn gens_at_most(s: Seq<Creature>, cap: u32) -> bool {
    forall|i: int| 0 <= i < s.len() ==> (#[trigger] s[i]).generation <= cap
}

/// A cached score tells the truth: it is the creature's own mean squared
/// error over the rows.  An unset cache is vacuously truthful.
pub open spec fn cache_truthful(c: Creature, rows: Seq<Vec<(usize, u32)>>, target: usize) -> bool {
    match c.cached_error_sum {
        Some(e) => e == error_sum_of(c.equation@, rows, target),
        None => true,
    }
}

/// Every cached score in the population tells the truth.
pub open spec fn all_truthful(s: Seq<Creature>, rows: Seq<Vec<(usize, u32)>>, target: usize) -> bool {
    forall|i: int| 0 <= i < s.len() ==> cache_truthful(#[trigger] s[i], rows, target)
}

/// The sum of squared errors over the first `k` rows, the rows given as
/// plain sequences.
pub open spec fn err_accum_rows(
    eqs: Seq<LayerModifiers>,
    rows: Seq<Seq<(usize, u32)>>,
    target: usize,
    k: nat,
) -> u32
    decreases k,
{
    if k == 0 {
        F_ZERO
    } else {
        add_of(err_accum_rows(eqs, rows, target, (k - 1) as nat), sq_err(eqs, rows[k - 1], target))
    }
}

/// A creature's mean squared error over rows given as plain sequences.
pub open spec fn error_sum_of_rows(
    eqs: Seq<LayerModifiers>,
    rows: Seq<Seq<(usize, u32)>>,
    target: usize,
) -> u32 {
    div_of(err_accum_rows(eqs, rows, target, rows.len()), of_count(rows.len() as u64))
}

/// The two row representations give the same error sums.
proof fn lemma_err_accum_views(
    eqs: Seq<LayerModifiers>,
    rowsv: Seq<Vec<(usize, u32)>>,
    rowss: Seq<Seq<(usize, u32)>>,
    target: usize,
    k: nat,
)
    requires
        rowsv.len() == rowss.len(),
        forall|i: int| 0 <= i < rowsv.len() ==> (#[trigger] rowsv[i])@ == rowss[i],
        k <= rowsv.len(),
    ensures
        err_accum(eqs, rowsv, target, k) == err_accum_rows(eqs, rowss, target, k),
    decreases k,
{
    if k > 0 {
        lemma_err_accum_views(eqs, rowsv, rowss, target, (k - 1) as nat);
        assert(rowsv[k - 1]@ == rowss[k - 1]);
    }
}

/// The two row representations give the same mean squared error.
pub proof fn lemma_error_sum_views(
    eqs: Seq<LayerModifiers>,
    rowsv: Seq<Vec<(usize, u32)>>,
    rowss: Seq<Seq<(usize, u32)>>,
    target: usize,
)
    requires
        rowsv.len() == rowss.len(),
        forall|i: int| 0 <= i < rowsv.len() ==> (#[trigger] rowsv[i])@ == rowss[i],
    ensures
        error_sum_of(eqs, rowsv, target) == error_sum_of_rows(eqs, rowss, target),
{
    lemma_err_accum_views(eqs, rowsv, rowss, target, rowsv.len());
}

/// The error sum depends only on each layer's content.
proof fn lemma_err_accum_like(
    eqs1: Seq<LayerModifiers>,
    eqs2: Seq<LayerModifiers>,
    rows: Seq<Vec<(usize, u32)>>,
    target: usize,
    k: nat,
)
    requires
        eqs1.len() == eqs2.len(),
        forall|i: int| 0 <= i < eqs1.len() ==> crate::creature::layer_like(
            #[trigger] eqs1[i],
            #[trigger] eqs2[i],
        ),
        k <= rows.len(),
    ensures
        err_accum(eqs1, rows, target, k) == err_accum(eqs2, rows, target, k),
    decreases k,
{
    if k > 0 {
        lemma_err_accum_like(eqs1, eqs2, rows, target, (k - 1) as nat);
        crate::creature::lemma_calc_like(eqs1, eqs2, rows[k - 1]@);
    }
}

/// Two creatures holding the same content have the same mean squared
/// error, so a copy's cached score stays truthful.
pub proof fn lemma_error_sum_like(
    eqs1: Seq<LayerModifiers>,
    eqs2: Seq<LayerModifiers>,
    rows: Seq<Vec<(usize, u32)>>,
    target: usize,
)
    requires
        eqs1.len() == eqs2.len(),
        forall|i: int| 0 <= i < eqs1.len() ==> crate::creature::layer_like(
            #[trigger] eqs1[i],
            #[trigger] eqs2[i],
        ),
    ensures
        error_sum_of(eqs1, rows, target) == error_sum_of(eqs2, rows, target),
{
    lemma_err_accum_like(eqs1, eqs2, rows, target, rows.len());
}

/// The creatures of the first `k` scoring strictly below `median`, in
/// order.
pub open spec fn survivors_prefix(s: Seq<Creature>, median: u32, k: nat) -> Seq<Creature>
    decreases k,
{
    if k == 0 {
        Seq::empty()
    } else {
        let rest = survivors_prefix(s, median, (k - 1) as nat);
        if flt(s[k - 1].cached_error_sum.unwrap(), median) {
            rest.push(s[k - 1])
        } else {
            rest
        }
    }
}

/// The creatures scoring strictly below `median`, in order.
pub open spec fn survivors(s: Seq<Creature>, median: u32) -> Seq<Creature> {
    survivors_prefix(s, median, s.len())
}

/// What the filtered sequence holds: only creatures strictly below the
/// median, all from the input, and every qualifying input among them.
pub proof fn lemma_survivors_facts(s: Seq<Creature>, median: u32, k: nat)
    requires
        k <= s.len(),
    ensures
        forall|m: int|
            0 <= m < survivors_prefix(s, median, k).len() ==> flt(
                (#[trigger] survivors_prefix(s, median, k)[m]).cached_error_sum.unwrap(),
                median,
            ),
        forall|m: int|
            0 <= m < survivors_prefix(s, median, k).len() ==> s.contains(
                #[trigger] survivors_prefix(s, median, k)[m],
            ),
        forall|j: int|
            0 <= j < k && flt((#[trigger] s[j]).cached_error_sum.unwrap(), median)
                ==> survivors_prefix(s, median, k).contains(s[j]),
    decreases k,
{
    if k > 0 {
        lemma_survivors_facts(s, median, (k - 1) as nat);
        let prev = survivors_prefix(s, median, (k - 1) as nat);
        let cur = survivors_prefix(s, median, k);
        if flt(s[k - 1].cached_error_sum.unwrap(), median) {
            assert(cur == prev.push(s[k - 1]));
            assert forall|m: int|
                0 <= m < cur.len() implies flt(
                (#[trigger] cur[m]).cached_error_sum.unwrap(),
                median,
            ) && s.contains(cur[m]) by {
                if m < prev.len() {
                    assert(cur[m] == prev[m]);
                    assert(s.contains(prev[m]));
                } else {
                    assert(cur[m] == s[k - 1]);
                }
            }
            assert forall|j: int|
                0 <= j < k && flt((#[trigger] s[j]).cached_error_sum.unwrap(), median)
                    implies cur.contains(s[j]) by {
                if j == k - 1 {
                    assert(cur[cur.len() - 1] == s[j]);
                } else {
                    let w = choose|w: int| 0 <= w < prev.len() && prev[w] == s[j];
                    assert(cur[w] == s[j]);
                }
            }
        }
    }
}

/// The positions of the creatures scoring strictly below `cutoff` among
/// the first `k`, in order.
pub open spec fn strong_prefix(s: Seq<Creature>, cutoff: u32, k: nat) -> Seq<int>
    decreases k,
{
    if k == 0 {
        Seq::empty()
    } else {
        let rest = strong_prefix(s, cutoff, (k - 1) as nat);
        if flt(s[k - 1].cached_error_sum.unwrap(), cutoff) {
            rest.push(k - 1)
        } else {
            rest
        }
    }
}

/// The positions of all creatures scoring strictly below `cutoff`.
pub open spec fn strong_positions(s: Seq<Creature>, cutoff: u32) -> Seq<int> {
    strong_prefix(s, cutoff, s.len())
}

/// Every recorded breeding position is a valid index among the first `k`.
pub proof fn lemma_strong_prefix_range(s: Seq<Creature>, cutoff: u32, k: nat)
    requires
        k <= s.len(),
    ensures
        forall|m: int|
            0 <= m < strong_prefix(s, cutoff, k).len() ==> 0 <= #[trigger] strong_prefix(
                s,
                cutoff,
                k,
            )[m] < k,
    decreases k,
{
    if k > 0 {
        lemma_strong_prefix_range(s, cutoff, (k - 1) as nat);
        let prev = strong_prefix(s, cutoff, (k - 1) as nat);
        let cur = strong_prefix(s, cutoff, k);
        if flt(s[k - 1].cached_error_sum.unwrap(), cutoff) {
            assert forall|m: int| 0 <= m < cur.len() implies 0 <= #[trigger] cur[m] < k by {
                if m < prev.len() {
                    assert(cur[m] == prev[m]);
                }
            }
        }
    }
}

/// Whether the `m`-th bred mutant descends from the `m`-th creature
/// scoring strictly below `cutoff` among the first `k`.
pub open spec fn bred_at(
    r: Seq<Creature>,
    m: int,
    s: Seq<Creature>,
    cutoff: u32,
    k: nat,
    gauss: Seq<u32>,
) -> bool {
    let poss = strong_prefix(s, cutoff, k);
    &&& 0 <= poss[m] < s.len()
    &&& mutant_of(r[m], s[poss[m]])
    &&& crate::creature::creature_perturbed(
        s[poss[m]],
        r[m],
        speed_sd(MutateSpeed::Fast),
        gauss,
    )
}

/// The exact layout of a cycle's returned population: the survivors of
/// the scored population, in order; then one fast mutant per survivor
/// scoring strictly below the breeding cutoff, in survivor order; the
/// whole truncated to the population size; then freshly built creatures
/// filling any rest.
pub open spec fn cycle_layout(
    out: Seq<Creature>,
    scored: Seq<Creature>,
    opts: Seq<usize>,
    max_layers: u8,
    gauss: Seq<u32>,
) -> bool {
    let sorted = errs_of(scored).sort_by(by_key());
    let median = sorted[scored.len() as int / 2];
    let minv = sorted[0];
    let cutoff = mut_cutoff(minv, median);
    let surv = survivors(scored, median);
    let poss = strong_positions(surv, cutoff);
    let n_surv: int = if surv.len() <= out.len() {
        surv.len() as int
    } else {
        out.len() as int
    };
    let n_bred: int = if surv.len() + poss.len() <= out.len() {
        poss.len() as int
    } else if out.len() >= surv.len() {
        out.len() - surv.len()
    } else {
        0
    };
    &&& forall|m: int| #![trigger out[m]] 0 <= m < n_surv ==> out[m] == surv[m]
    &&& forall|m: int|
        #![trigger out[m]]
        n_surv <= m < n_surv + n_bred ==> {
            &&& 0 <= poss[m - n_surv]
            &&& poss[m - n_surv] < surv.len()
            &&& mutant_of(out[m], surv[poss[m - n_surv]])
            &&& crate::creature::creature_perturbed(
                surv[poss[m - n_surv]],
                out[m],
                speed_sd(MutateSpeed::Fast),
                gauss,
            )
        }
    &&& forall|m: int|
        #![trigger out[m]]
        n_surv + n_bred <= m < out.len() ==> crate::creature::fresh_creature_ok(
            out[m],
            opts,
            max_layers,
        )
}

/// What the scorer leaves behind: an already scored creature is untouched,
/// an unscored one gets exactly the mean squared error of its equation,
/// and nothing else moves.
pub open spec fn scored_rel(
    before: Creature,
    after: Creature,
    rows: Seq<Vec<(usize, u32)>>,
    target: usize,
) -> bool {
    &&& after.equation == before.equation
    &&& after.generation == before.generation
    &&& after.cached_error_sum == (match before.cached_error_sum {
        Some(e) => Some(e),
        None => Some(error_sum_of(before.equation@, rows, target)),
    })
}

/// The creature as the scorer leaves it: the cache filled with its mean
/// squared error if it was unset, everything else untouched.
pub open spec fn scored_version(
    c: Creature,
    rows: Seq<Vec<(usize, u32)>>,
    target: usize,
) -> Creature {
    Creature {
        cached_error_sum: match c.cached_error_sum {
            Some(e) => Some(e),
            None => Some(error_sum_of(c.equation@, rows, target)),
        },
        ..c
    }
}

/// The whole population as the scorer leaves it.
pub open spec fn scored_pop(
    s: Seq<Creature>,
    rows: Seq<Vec<(usize, u32)>>,
    target: usize,
) -> Seq<Creature> {
    Seq::new(s.len(), |i: int| scored_version(s[i], rows, target))
}

/// A creature's mean squared error over the rows, computed row by row.
pub fn calc_error_sum(
    creature: &Creature,
    data_points: &Vec<Vec<(usize, u32)>>,
    target_param: usize,
) -> (r: u32)
    requires
        rows_have_target(data_points@, target_param),
    ensures
        r == error_sum_of(creature.equation@, data_points@, target_param),
{
    let mut total: u32 = F_ZERO;
    let mut i: usize = 0;
    while i < data_points.len()
        invariant
            rows_have_target(data_points@, target_param),
            i <= data_points@.len(),
            total == err_accum(creature.equation@, data_points@, target_param, i as nat),
        decreases data_points@.len() - i,
    {
        let calc = creature.calculate(&data_points[i]);
        proof {
            assert(row_lookup(data_points@[i as int]@, target_param) is Some);
        }
        let expected = lookup_row(&data_points[i], target_param).unwrap();
        let diff = sub_bits(calc, expected);
        total = add_bits(total, mul_bits(diff, diff));
        i = i + 1;
    }
    div_bits(total, count_bits(data_points.len() as u64))
}

/// Score one creature in place, unless its cache is already set: the
/// memoization that keeps survivors from being rescored.
pub fn fill_cache(creature: &mut Creature, rows: &Vec<Vec<(usize, u32)>>, target: usize)
    requires
        rows_have_target(rows@, target),
    ensures
        scored_rel(*old(creature), *final(creature), rows@, target),
{
    match creature.cached_error_sum {
        Some(_) => {},
        None => {
            let err = calc_error_sum(creature, rows, target);
            creature.cached_error_sum = Some(err);
        },
    }
}

/// Relies on rayon (par_iter_mut, for_each): runs the verified scorer once
/// on each creature of the population, in place, on worker threads.  The
/// scorer touches only its own element, so the tasks are independent.
#[verifier::external_body]
fn score_parallel(creatures: &mut Vec<Creature>, rows: &Vec<Vec<(usize, u32)>>, target: usize)
    requires
        rows_have_target(rows@, target),
    ensures
        final(creatures)@.len() == old(creatures)@.len(),
        forall|i: int|
            0 <= i < old(creatures)@.len() ==> scored_rel(
                old(creatures)@[i],
                #[trigger] final(creatures)@[i],
                rows@,
                target,
            ),
{
    creatures.par_iter_mut().for_each(|c| fill_cache(c, rows, target));
}

/// The least and upper-median cached errors of a scored population, read
/// off the population's error sequence sorted in the IEEE total order.
pub fn error_results(creatures: &Vec<Creature>) -> (r: (u32, u32))
    requires
        creatures@.len() > 0,
        all_scored(creatures@),
    ensures
        r.0 == errs_of(creatures@).sort_by(by_key())[0],
        r.1 == errs_of(creatures@).sort_by(by_key())[creatures@.len() as int / 2],
        exists|i: int|
            0 <= i < creatures@.len() && (#[trigger] creatures@[i]).cached_error_sum == Some(
                r.0,
            ),
        exists|i: int|
            0 <= i < creatures@.len() && (#[trigger] creatures@[i]).cached_error_sum == Some(
                r.1,
            ),
        forall|i: int|
            0 <= i < creatures@.len() ==> key_le(
                r.0,
                (#[trigger] creatures@[i]).cached_error_sum.unwrap(),
            ),
{
    broadcast use vstd::seq_lib::group_to_multiset_ensures;

    let mut errors: Vec<u32> = Vec::new();
    let mut i: usize = 0;
    while i < creatures.len()
        invariant
            all_scored(creatures@),
            i <= creatures@.len(),
            errors@.len() == i,
            forall|j: int|
                0 <= j < i ==> errors@[j] == (#[trigger] creatures@[j]).cached_error_sum.unwrap(),
        decreases creatures@.len() - i,
    {
        proof {
            assert(creatures@[i as int].cached_error_sum is Some);
        }
        let e = creatures[i].cached_error_sum.unwrap();
        errors.push(e);
        i = i + 1;
    }
    proof {
        assert(errors@ =~= errs_of(creatures@));
    }
    let ghost es = errs_of(creatures@);
    let sorted = sort_patterns(errors);
    proof {
        lemma_by_key_total_ordering();
        es.lemma_sort_by_ensures(by_key());
        vstd::seq_lib::lemma_sorted_unique(sorted@, es.sort_by(by_key()), by_key());
        assert(sorted@ == es.sort_by(by_key()));
    }
    let min_error = sorted[0];
    let median_error = sorted[creatures.len() / 2];
    proof {
        lemma_sorted_first_least(sorted@);
        assert forall|j: int|
            0 <= j < creatures@.len() implies key_le(
            min_error,
            (#[trigger] creatures@[j]).cached_error_sum.unwrap(),
        ) by {
            assert(es[j] == creatures@[j].cached_error_sum.unwrap());
            assert(es.to_multiset().contains(es[j]));
        }
        // The sorted entries all come from the population's error multiset.
        assert(sorted@.to_multiset().contains(sorted@[0]));
        assert(es.contains(sorted@[0]));
        let j0 = choose|j: int| 0 <= j < es.len() && es[j] == sorted@[0];
        assert(creatures@[j0].cached_error_sum == Some(sorted@[0]));
        let m = creatures@.len() as int / 2;
        assert(sorted@.to_multiset().contains(sorted@[m]));
        assert(es.contains(sorted@[m]));
        let j1 = choose|j: int| 0 <= j < es.len() && es[j] == sorted@[m];
        assert(creatures@[j1].cached_error_sum == Some(sorted@[m]));
    }
    (min_error, median_error)
}

/// The position of the first creature cached at exactly `err`.  The
/// caller's evidence that some creature holds `err` makes the search
/// total: selection cannot fail.
pub fn find_by_error(creatures: &Vec<Creature>, err: u32) -> (idx: usize)
    requires
        exists|i: int|
            0 <= i < creatures@.len() && (#[trigger] creatures@[i]).cached_error_sum == Some(
                err,
            ),
    ensures
        idx < creatures@.len(),
        creatures@[idx as int].cached_error_sum == Some(err),
        forall|j: int| 0 <= j < idx ==> (#[trigger] creatures@[j]).cached_error_sum != Some(err),
{
    let mut i: usize = 0;
    while i < creatures.len()
        invariant
            i <= creatures@.len(),
            exists|k: int|
                0 <= k < creatures@.len() && (#[trigger] creatures@[k]).cached_error_sum == Some(
                    err,
                ),
            forall|j: int|
                0 <= j < i ==> (#[trigger] creatures@[j]).cached_error_sum != Some(err),
        decreases creatures@.len() - i,
    {
        let hit = match creatures[i].cached_error_sum {
            Some(e) => e == err,
            None => false,
        };
        if hit {
            return i;
        }
        i = i + 1;
    }
    proof {
        assert(false);
    }
    0
}

/// Keep exactly the creatures scoring strictly below the median error:
/// the result is the input's filtered subsequence, in input order.
pub fn kill_weak_creatures(creatures: Vec<Creature>, median_error: u32) -> (r: Vec<Creature>)
    requires
        all_scored(creatures@),
    ensures
        r@ == survivors(creatures@, median_error),
        all_scored(r@),
        forall|m: int|
            0 <= m < r@.len() ==> flt(
                (#[trigger] r@[m]).cached_error_sum.unwrap(),
                median_error,
            ),
        forall|m: int| 0 <= m < r@.len() ==> creatures@.contains(#[trigger] r@[m]),
        forall|j: int|
            0 <= j < creatures@.len() && flt(
                (#[trigger] creatures@[j]).cached_error_sum.unwrap(),
                median_error,
            ) ==> r@.contains(creatures@[j]),
{
    let ghost orig = creatures@;
    let mut creatures = creatures;
    // First pass: reverse into a stack, so the second pass walks the
    // input front to back.
    let mut stack: Vec<Creature> = Vec::new();
    proof {
        assert(creatures@ =~= orig.subrange(0, creatures@.len() as int));
    }
    while creatures.len() > 0
        invariant
            creatures@.len() + stack@.len() == orig.len(),
            creatures@ == orig.subrange(0, creatures@.len() as int),
            forall|t: int|
                0 <= t < stack@.len() ==> #[trigger] stack@[t] == orig[orig.len() - 1 - t],
        decreases creatures@.len(),
    {
        let ghost pos = creatures@.len() - 1;
        let ghost pre = creatures@;
        let c = creatures.pop().unwrap();
        proof {
            assert(pre == orig.subrange(0, pos + 1));
            assert(c == orig.subrange(0, pos + 1)[pos]);
            assert(creatures@ == pre.subrange(0, pos));
            assert(orig.subrange(0, pos + 1).subrange(0, pos) =~= orig.subrange(0, pos));
        }
        stack.push(c);
    }
    // Second pass: pop the stack, walking the input in order, and keep the
    // creatures strictly below the median.
    let mut out: Vec<Creature> = Vec::new();
    while stack.len() > 0
        invariant
            all_scored(orig),
            stack@.len() <= orig.len(),
            forall|t: int|
                0 <= t < stack@.len() ==> #[trigger] stack@[t] == orig[orig.len() - 1 - t],
            out@ == survivors_prefix(orig, median_error, (orig.len() - stack@.len()) as nat),
        decreases stack@.len(),
    {
        let ghost k = orig.len() - stack@.len();
        let c = stack.pop().unwrap();
        proof {
            assert(c == orig[k as int]);
            assert(orig[k as int].cached_error_sum is Some);
        }
        let e = c.cached_error_sum.unwrap();
        if lt_bits(e, median_error) {
            out.push(c);
        }
    }
    proof {
        assert(out@ == survivors(orig, median_error));
        lemma_survivors_facts(orig, median_error, orig.len());
        assert forall|m: int|
            0 <= m < out@.len() implies (#[trigger] out@[m]).cached_error_sum is Some by {
            assert(orig.contains(out@[m]));
            let w = choose|w: int| 0 <= w < orig.len() && orig[w] == out@[m];
            assert(orig[w].cached_error_sum is Some);
        }
    }
    out
}

/// The breeding threshold: the midpoint of the least and median errors.
pub open spec fn mut_cutoff(min_error: u32, median_error: u32) -> u32 {
    div_of(add_of(min_error, median_error), F_TWO)
}

/// Whether `c` is a mutant of some creature of `src` scoring strictly
/// below `cutoff`.
pub open spec fn bred_one(c: Creature, src: Seq<Creature>, cutoff: u32, gauss: Seq<u32>) -> bool {
    exists|j: int|
        0 <= j < src.len() && flt(src[j].cached_error_sum.unwrap(), cutoff) && #[trigger] mutant_of(
            c,
            src[j],
        ) && crate::creature::creature_perturbed(src[j], c, speed_sd(MutateSpeed::Fast), gauss)
}

/// Whether the breeding stage's `m`-th output stems from a creature of
/// `src` scoring strictly below `cutoff`.
pub open spec fn bred_from_strong(
    r: Seq<Creature>,
    m: int,
    src: Seq<Creature>,
    cutoff: u32,
    gauss: Seq<u32>,
) -> bool {
    bred_one(r[m], src, cutoff, gauss)
}

/// Where a member of a cycle's returned population comes from: a survivor
/// of the scored population (scoring strictly below its median), a mutant
/// of a survivor scoring strictly below the breeding cutoff, or a freshly
/// built creature.
pub open spec fn cycle_member_ok(
    c: Creature,
    scored: Seq<Creature>,
    opts: Seq<usize>,
    max_layers: u8,
    gauss: Seq<u32>,
) -> bool {
    let sorted = errs_of(scored).sort_by(by_key());
    let median = sorted[scored.len() as int / 2];
    let min = sorted[0];
    ||| (scored.contains(c) && flt(c.cached_error_sum.unwrap(), median))
    ||| bred_one(c, scored, mut_cutoff(min, median), gauss)
    ||| crate::creature::fresh_creature_ok(c, opts, max_layers)
}

/// Breed one fast mutant from every creature scoring strictly below the
/// midpoint of the least and median errors: every output is a mutant of
/// such a creature, each such creature gets a mutant of itself in the
/// result, every output carries an unset cache, and no generation counter
/// rises by more than one over the cap.
pub fn mutated_top_creatures(
    creatures: &Vec<Creature>,
    min_error: u32,
    median_error: u32,
    draws: &mut Draws,
    gen_cap: u32,
) -> (r: Vec<Creature>)
    requires
        all_scored(creatures@),
        gens_at_most(creatures@, gen_cap),
        gen_cap < u32::MAX,
        draws_wf(*old(draws)),
    ensures
        draws_wf(*final(draws)),
        final(draws).tri@ == old(draws).tri@,
        final(draws).gauss@ == old(draws).gauss@,
        forall|m: int| 0 <= m < r@.len() ==> (#[trigger] r@[m]).cached_error_sum is None,
        gens_at_most(r@, (gen_cap + 1) as u32),
        r@.len() == strong_positions(
            creatures@,
            mut_cutoff(min_error, median_error),
        ).len(),
        forall|m: int|
            0 <= m < r@.len() ==> #[trigger] bred_at(
                r@,
                m,
                creatures@,
                mut_cutoff(min_error, median_error),
                creatures@.len(),
                old(draws).gauss@,
            ),
        forall|m: int|
            0 <= m < r@.len() ==> #[trigger] bred_from_strong(
                r@,
                m,
                creatures@,
                mut_cutoff(min_error, median_error),
                old(draws).gauss@,
            ),
        forall|j2: int|
            0 <= j2 < creatures@.len() && flt(
                (#[trigger] creatures@[j2]).cached_error_sum.unwrap(),
                mut_cutoff(min_error, median_error),
            ) ==> exists|m: int| 0 <= m < r@.len() && mutant_of(r@[m], creatures@[j2]),
{
    let error_cutoff = div_bits(add_bits(min_error, median_error), F_TWO);
    let mut out: Vec<Creature> = Vec::new();
    let mut j: usize = 0;
    while j < creatures.len()
        invariant
            all_scored(creatures@),
            gens_at_most(creatures@, gen_cap),
            gen_cap < u32::MAX,
            draws_wf(*draws),
            draws.tri@ == old(draws).tri@,
            draws.gauss@ == old(draws).gauss@,
            j <= creatures@.len(),
            error_cutoff == mut_cutoff(min_error, median_error),
            forall|m: int| 0 <= m < out@.len() ==> (#[trigger] out@[m]).cached_error_sum is None,
            gens_at_most(out@, (gen_cap + 1) as u32),
            out@.len() == strong_prefix(
                creatures@,
                mut_cutoff(min_error, median_error),
                j as nat,
            ).len(),
            forall|m: int|
                0 <= m < out@.len() ==> #[trigger] bred_at(
                    out@,
                    m,
                    creatures@,
                    mut_cutoff(min_error, median_error),
                    j as nat,
                    old(draws).gauss@,
                ),
            forall|m: int|
                0 <= m < out@.len() ==> #[trigger] bred_from_strong(
                    out@,
                    m,
                    creatures@,
                    mut_cutoff(min_error, median_error),
                    old(draws).gauss@,
                ),
            forall|j2: int|
                0 <= j2 < j && flt(
                    (#[trigger] creatures@[j2]).cached_error_sum.unwrap(),
                    mut_cutoff(min_error, median_error),
                ) ==> exists|m: int| 0 <= m < out@.len() && mutant_of(out@[m], creatures@[j2]),
        decreases creatures@.len() - j,
    {
        proof {
            assert(creatures@[j as int].cached_error_sum is Some);
            assert(creatures@[j as int].generation <= gen_cap);
        }
        let e = creatures[j].cached_error_sum.unwrap();
        let ghost out0 = out@;
        if lt_bits(e, error_cutoff) {
            let m = creatures[j].mutate(MutateSpeed::Fast, draws);
            let ghost mm = m;
            out.push(m);
            proof {
                assert(out@ == out0.push(mm));
                assert(out@[out0.len() as int] == mm);
                assert(mutant_of(mm, creatures@[j as int]));
                assert(crate::creature::creature_perturbed(
                    creatures@[j as int],
                    mm,
                    speed_sd(MutateSpeed::Fast),
                    old(draws).gauss@,
                ));
                let ghost cutoff = mut_cutoff(min_error, median_error);
                assert(strong_prefix(creatures@, cutoff, (j + 1) as nat) == strong_prefix(
                    creatures@,
                    cutoff,
                    j as nat,
                ).push(j as int));
                assert forall|m2: int|
                    0 <= m2 < out@.len() implies #[trigger] bred_at(
                    out@,
                    m2,
                    creatures@,
                    cutoff,
                    (j + 1) as nat,
                    old(draws).gauss@,
                ) by {
                    let poss0 = strong_prefix(creatures@, cutoff, j as nat);
                    let poss1 = strong_prefix(creatures@, cutoff, (j + 1) as nat);
                    if m2 < out0.len() {
                        assert(bred_at(out0, m2, creatures@, cutoff, j as nat, old(draws).gauss@));
                        assert(poss1[m2] == poss0[m2]);
                        assert(out@[m2] == out0[m2]);
                    } else {
                        assert(poss1[m2] == j as int);
                        assert(out@[m2] == mm);
                    }
                }
                assert forall|m2: int|
                    0 <= m2 < out@.len() implies #[trigger] bred_from_strong(
                    out@,
                    m2,
                    creatures@,
                    cutoff,
                    old(draws).gauss@,
                ) by {
                    if m2 < out0.len() {
                        assert(bred_from_strong(out0, m2, creatures@, cutoff, old(draws).gauss@));
                        let w = choose|j2: int|
                            0 <= j2 < creatures@.len() && flt(
                                creatures@[j2].cached_error_sum.unwrap(),
                                cutoff,
                            ) && #[trigger] mutant_of(out0[m2], creatures@[j2])
                                && crate::creature::creature_perturbed(
                                creatures@[j2],
                                out0[m2],
                                speed_sd(MutateSpeed::Fast),
                                old(draws).gauss@,
                            );
                        assert(out@[m2] == out0[m2]);
                        assert(mutant_of(out@[m2], creatures@[w]));
                    } else {
                        assert(mutant_of(out@[m2], creatures@[j as int]));
                    }
                }
            }
        }
        proof {
            let ghost cutoff = mut_cutoff(min_error, median_error);
            if !flt(creatures@[j as int].cached_error_sum.unwrap(), cutoff) {
                assert(strong_prefix(creatures@, cutoff, (j + 1) as nat) == strong_prefix(
                    creatures@,
                    cutoff,
                    j as nat,
                ));
                assert forall|m2: int|
                    0 <= m2 < out@.len() implies #[trigger] bred_at(
                    out@,
                    m2,
                    creatures@,
                    cutoff,
                    (j + 1) as nat,
                    old(draws).gauss@,
                ) by {
                    assert(bred_at(out@, m2, creatures@, cutoff, j as nat, old(draws).gauss@));
                }
            }
            assert forall|j2: int|
                0 <= j2 < j + 1 && flt(
                    (#[trigger] creatures@[j2]).cached_error_sum.unwrap(),
                    mut_cutoff(min_error, median_error),
                ) implies exists|m: int| 0 <= m < out@.len() && mutant_of(out@[m], creatures@[j2]) by {
                if j2 == j as int {
                    assert(mutant_of(out@[out@.len() - 1], creatures@[j2]));
                } else {
                    let w = choose|m: int|
                        0 <= m < out0.len() && mutant_of(#[trigger] out0[m], creatures@[j2]);
                    assert(out@[w] == out0[w]);
                    assert(mutant_of(out@[w], creatures@[j2]));
                }
            }
        }
        j = j + 1;
    }
    out
}

/// How many entries back the plateau test looks in the round history:
/// with the current round's entry included, the comparison reaches three
/// rounds prior.
pub const PLATEAU_LOOKBACK: usize = 4;

/// A running-best history: each entry equals its predecessor or lies
/// strictly below it in the IEEE order.
pub open spec fn run_non_increasing(h: Seq<u32>) -> bool {
    forall|a: int| 0 <= a < h.len() - 1 ==> ((#[trigger] h[a + 1]) == h[a] || flt(h[a + 1], h[a]))
}

/// One refinement round, as the contract records it: the incumbent the
/// round started from, the scored candidate set, the round's least error,
/// and the incumbent the round ended with.
pub struct RefineRound {
    pub incumbent: Creature,
    pub candidates: Seq<Creature>,
    pub round_min: u32,
    pub best_after: Creature,
}

/// The per-round least errors of a refinement history.
pub open spec fn mins_of(rounds: Seq<RefineRound>) -> Seq<u32> {
    Seq::new(rounds.len(), |i: int| rounds[i].round_min)
}

/// The mutation speed in force after `k` completed rounds: fast until the
/// plateau test fires — after the sixth round, when a round's least error
/// lies strictly above the plateau ratio of the least error three rounds
/// earlier — and fine from then on, never reverting.
pub open spec fn speed_after(mins: Seq<u32>, k: nat) -> MutateSpeed
    decreases k,
{
    if k == 0 {
        MutateSpeed::Fast
    } else {
        match speed_after(mins, (k - 1) as nat) {
            MutateSpeed::Fine => MutateSpeed::Fine,
            MutateSpeed::Fast => if k - 1 > 5 && flt(
                PLATEAU_RATIO,
                div_of(mins[k - 1], mins[k - 1 - 3]),
            ) {
                MutateSpeed::Fine
            } else {
                MutateSpeed::Fast
            },
        }
    }
}

/// The speed after `k` rounds depends only on the first `k` round minima.
proof fn lemma_speed_after_prefix(m1: Seq<u32>, m2: Seq<u32>, k: nat)
    requires
        k <= m1.len(),
        k <= m2.len(),
        forall|j: int| 0 <= j < k ==> m1[j] == m2[j],
    ensures
        speed_after(m1, k) == speed_after(m2, k),
    decreases k,
{
    if k > 0 {
        lemma_speed_after_prefix(m1, m2, (k - 1) as nat);
    }
}

/// A scored copy of `src`: same layers and generation, the cache set.
pub open spec fn scored_copy_of(c: Creature, src: Creature) -> bool {
    &&& c.equation@.len() == src.equation@.len()
    &&& forall|i: int|
        0 <= i < src.equation@.len() ==> crate::creature::layer_like(
            #[trigger] c.equation@[i],
            #[trigger] src.equation@[i],
        )
    &&& c.generation == src.generation
    &&& c.cached_error_sum is Some
}

/// A scored mutant of `inc`: the generation one higher, every layer
/// mutated in shape and perturbed at spread `sd` from the Gaussian buffer,
/// the cache set.
pub open spec fn scored_mutant_of(c: Creature, inc: Creature, sd: u32, gauss: Seq<u32>) -> bool {
    &&& c.generation == inc.generation + 1
    &&& c.equation@.len() == inc.equation@.len()
    &&& forall|i: int|
        0 <= i < inc.equation@.len() ==> crate::creature::layer_mutated(
            #[trigger] inc.equation@[i],
            #[trigger] c.equation@[i],
        )
    &&& crate::creature::creature_perturbed(inc, c, sd, gauss)
    &&& c.cached_error_sum is Some
}

/// What one refinement round consists of: the incumbent scored among 500
/// of its mutants bred at spread `sd`, every cached error truthful, the
/// round's least error read off the sorted candidate errors, and the
/// round's outgoing incumbent either the first candidate cached at exactly
/// that least error (when it strictly undercuts the incumbent's error) or
/// the incumbent unchanged.
pub open spec fn round_ok(
    rd: RefineRound,
    rows: Seq<Vec<(usize, u32)>>,
    target: usize,
    sd: u32,
    gauss: Seq<u32>,
) -> bool {
    &&& rd.candidates.len() == 501
    &&& rd.incumbent.cached_error_sum is Some
    &&& scored_copy_of(rd.candidates[0], rd.incumbent)
    &&& forall|k: int|
        1 <= k < rd.candidates.len() ==> scored_mutant_of(
            #[trigger] rd.candidates[k],
            rd.incumbent,
            sd,
            gauss,
        )
    &&& forall|k: int|
        0 <= k < rd.candidates.len() ==> (#[trigger] rd.candidates[k]).cached_error_sum
            == Some(error_sum_of(rd.candidates[k].equation@, rows, target))
    &&& rd.round_min == errs_of(rd.candidates).sort_by(by_key())[0]
    &&& if flt(rd.round_min, rd.incumbent.cached_error_sum.unwrap()) {
        exists|k: int|
            0 <= k < rd.candidates.len() && (#[trigger] rd.candidates[k]).cached_error_sum
                == Some(rd.round_min) && creature_like(rd.best_after, rd.candidates[k]) && (
            forall|j: int|
                0 <= j < k ==> (#[trigger] rd.candidates[j]).cached_error_sum != Some(
                    rd.round_min,
                ))
    } else {
        rd.best_after == rd.incumbent
    }
}

/// Refine the best champion by local search: each of the `iterations`
/// rounds scores the current best alongside 500 of its mutants, bred at
/// the speed the plateau rule prescribes, and adopts the first candidate
/// scoring strictly below the running best error.  The returned ghost
/// round records pin the whole schedule (`round_ok`, `speed_after`); the
/// returned history holds the running best error after each round, never
/// increasing, and the result is the final round's outgoing incumbent.
pub fn optimize_creature(
    creature: &Creature,
    data_points: &Vec<Vec<(usize, u32)>>,
    target: usize,
    iterations: u16,
    draws: &mut Draws,
) -> (r: (Creature, Ghost<Seq<u32>>, Ghost<Seq<RefineRound>>))
    requires
        creature.cached_error_sum is Some,
        cache_truthful(*creature, data_points@, target),
        avoids_param(*creature, target),
        rows_have_target(data_points@, target),
        creature.generation + iterations + 1 <= u32::MAX,
        draws_wf(*old(draws)),
    ensures
        draws_wf(*final(draws)),
        final(draws).tri@ == old(draws).tri@,
        final(draws).gauss@ == old(draws).gauss@,
        r.0.cached_error_sum is Some,
        r.0.cached_error_sum.unwrap() == creature.cached_error_sum.unwrap() || flt(
            r.0.cached_error_sum.unwrap(),
            creature.cached_error_sum.unwrap(),
        ),
        r.0.generation <= creature.generation + iterations,
        r.0.generation >= creature.generation,
        cache_truthful(r.0, data_points@, target),
        avoids_param(r.0, target),
        r.1@.len() == iterations,
        run_non_increasing(r.1@),
        r.1@.len() > 0 ==> (r.1@[0] == creature.cached_error_sum.unwrap() || flt(
            r.1@[0],
            creature.cached_error_sum.unwrap(),
        )),
        r.1@.len() > 0 ==> r.0.cached_error_sum == Some(r.1@[r.1@.len() - 1]),
        r.2@.len() == iterations,
        r.2@.len() > 0 ==> creature_like(r.2@[0].incumbent, *creature),
        forall|i: int|
            0 <= i < r.2@.len() ==> round_ok(
                #[trigger] r.2@[i],
                data_points@,
                target,
                speed_sd(speed_after(mins_of(r.2@), i as nat)),
                old(draws).gauss@,
            ),
        forall|i: int|
            0 <= i < r.2@.len() - 1 ==> (#[trigger] r.2@[i + 1]).incumbent == r.2@[i].best_after,
        forall|i: int|
            0 <= i < r.2@.len() ==> (#[trigger] r.1@[i]) == r.2@[
                i
            ].best_after.cached_error_sum.unwrap(),
        r.2@.len() > 0 ==> r.0 == r.2@[r.2@.len() - 1].best_after,
{
    let ghost start_err = creature.cached_error_sum.unwrap();
    let mut errors: Vec<u32> = Vec::new();
    let mut best_error = creature.cached_error_sum.unwrap();
    let mut speed = MutateSpeed::Fast;
    let mut best_creature = creature.clone();
    let ghost mut hist: Seq<u32> = Seq::empty();
    let ghost mut rounds: Seq<RefineRound> = Seq::empty();
    proof {
        lemma_error_sum_like(
            best_creature.equation@,
            creature.equation@,
            data_points@,
            target,
        );
        lemma_like_avoids(*creature, best_creature, target);
    }
    let mut i: u32 = 0;
    while i < iterations as u32
        invariant
            rows_have_target(data_points@, target),
            draws_wf(*draws),
            draws.tri@ == old(draws).tri@,
            draws.gauss@ == old(draws).gauss@,
            i <= iterations,
            errors@.len() == i,
            hist.len() == i,
            rounds.len() == i,
            best_creature.cached_error_sum == Some(best_error),
            best_error == start_err || flt(best_error, start_err),
            i > 0 ==> hist[i - 1] == best_error,
            run_non_increasing(hist),
            i > 0 ==> (hist[0] == start_err || flt(hist[0], start_err)),
            cache_truthful(best_creature, data_points@, target),
            avoids_param(best_creature, target),
            best_creature.generation <= creature.generation + i,
            best_creature.generation >= creature.generation,
            creature.generation + iterations + 1 <= u32::MAX,
            speed == speed_after(errors@, i as nat),
            forall|j: int| 0 <= j < i ==> (#[trigger] rounds[j]).round_min == errors@[j],
            forall|j: int|
                0 <= j < i ==> round_ok(
                    #[trigger] rounds[j],
                    data_points@,
                    target,
                    speed_sd(speed_after(errors@, j as nat)),
                    old(draws).gauss@,
                ),
            forall|j: int|
                0 <= j < i - 1 ==> (#[trigger] rounds[j + 1]).incumbent == rounds[j].best_after,
            forall|j: int|
                0 <= j < i ==> (#[trigger] hist[j]) == rounds[
                    j
                ].best_after.cached_error_sum.unwrap(),
            i > 0 ==> rounds[i - 1].best_after == best_creature,
            i > 0 ==> creature_like(rounds[0].incumbent, *creature),
            creature_like(best_creature, *creature) || i > 0,
        decreases iterations - i,
    {
        let ghost prev_best = best_error;
        let ghost incumbent0 = best_creature;
        let mut candidates: Vec<Creature> = Vec::new();
        let c0 = best_creature.clone();
        proof {
            lemma_error_sum_like(c0.equation@, best_creature.equation@, data_points@, target);
            lemma_like_avoids(best_creature, c0, target);
        }
        candidates.push(c0);
        let mut k: usize = 0;
        while k < 500
            invariant
                rows_have_target(data_points@, target),
                draws_wf(*draws),
                draws.tri@ == old(draws).tri@,
                draws.gauss@ == old(draws).gauss@,
                k <= 500,
                candidates@.len() == k + 1,
                best_creature == incumbent0,
                best_creature.cached_error_sum == Some(best_error),
                cache_truthful(best_creature, data_points@, target),
                avoids_param(best_creature, target),
                best_creature.generation <= creature.generation + i,
                best_creature.generation >= creature.generation,
                i < iterations,
                creature.generation + iterations + 1 <= u32::MAX,
                creature_like(candidates@[0], incumbent0),
                forall|m: int|
                    1 <= m < candidates@.len() ==> mutant_of(
                        #[trigger] candidates@[m],
                        incumbent0,
                    ),
                forall|m: int|
                    1 <= m < candidates@.len() ==> crate::creature::creature_perturbed(
                        incumbent0,
                        #[trigger] candidates@[m],
                        speed_sd(speed),
                        old(draws).gauss@,
                    ),
                forall|m: int|
                    0 <= m < candidates@.len() ==> cache_truthful(
                        #[trigger] candidates@[m],
                        data_points@,
                        target,
                    ),
                forall|m: int|
                    0 <= m < candidates@.len() ==> avoids_param(
                        #[trigger] candidates@[m],
                        target,
                    ),
            decreases 500 - k,
        {
            let mutant = best_creature.mutate(speed, draws);
            proof {
                lemma_mutant_avoids(best_creature, mutant, target);
            }
            candidates.push(mutant);
            k = k + 1;
        }
        let ghost before = candidates@;
        score_parallel(&mut candidates, data_points, target);
        proof {
            assert forall|m: int|
                0 <= m < candidates@.len() implies {
                &&& (#[trigger] candidates@[m]).cached_error_sum is Some
                &&& candidates@[m].generation <= incumbent0.generation + 1
                &&& candidates@[m].generation >= incumbent0.generation
                &&& cache_truthful(candidates@[m], data_points@, target)
                &&& avoids_param(candidates@[m], target)
            } by {
                assert(scored_rel(before[m], candidates@[m], data_points@, target));
                assert(candidates@[m].equation == before[m].equation);
                assert(cache_truthful(before[m], data_points@, target));
                assert(avoids_param(before[m], target));
            }
            assert(scored_copy_of(candidates@[0], incumbent0)) by {
                assert(scored_rel(before[0], candidates@[0], data_points@, target));
                assert(creature_like(before[0], incumbent0));
            }
            assert forall|m: int|
                1 <= m < candidates@.len() implies scored_mutant_of(
                #[trigger] candidates@[m],
                incumbent0,
                speed_sd(speed),
                old(draws).gauss@,
            ) by {
                assert(scored_rel(before[m], candidates@[m], data_points@, target));
                assert(candidates@[m].equation == before[m].equation);
                assert(mutant_of(before[m], incumbent0));
                assert(crate::creature::creature_perturbed(
                    incumbent0,
                    before[m],
                    speed_sd(speed),
                    old(draws).gauss@,
                ));
            }
        }
        let pair = error_results(&candidates);
        let min_error = pair.0;
        let ghost errors0 = errors@;
        errors.push(min_error);
        if lt_bits(min_error, best_error) {
            let idx = find_by_error(&candidates, min_error);
            let adopted = candidates[idx].clone();
            proof {
                if best_error != start_err {
                    crate::numeric::lemma_flt_transitive(min_error, best_error, start_err);
                }
                lemma_error_sum_like(
                    adopted.equation@,
                    candidates@[idx as int].equation@,
                    data_points@,
                    target,
                );
                lemma_like_avoids(candidates@[idx as int], adopted, target);
            }
            best_creature = adopted;
            best_error = min_error;
        }
        proof {
            let ghost rd = RefineRound {
                incumbent: incumbent0,
                candidates: candidates@,
                round_min: min_error,
                best_after: best_creature,
            };
            let ghost rounds0 = rounds;
            let ghost hist0 = hist;
            rounds = rounds.push(rd);
            hist = hist.push(best_error);
            assert(round_ok(
                rd,
                data_points@,
                target,
                speed_sd(speed_after(errors0, i as nat)),
                old(draws).gauss@,
            ));
            lemma_speed_after_prefix(errors0, errors@, i as nat);
            assert forall|j: int|
                0 <= j < rounds.len() implies round_ok(
                #[trigger] rounds[j],
                data_points@,
                target,
                speed_sd(speed_after(errors@, j as nat)),
                old(draws).gauss@,
            ) by {
                if j < rounds0.len() {
                    assert(rounds[j] == rounds0[j]);
                    assert(round_ok(
                        rounds0[j],
                        data_points@,
                        target,
                        speed_sd(speed_after(errors0, j as nat)),
                        old(draws).gauss@,
                    ));
                    lemma_speed_after_prefix(errors0, errors@, j as nat);
                } else {
                    assert(rounds[j] == rd);
                }
            }
            assert(best_error == prev_best || flt(best_error, prev_best));
            assert forall|a: int|
                0 <= a < hist.len() - 1 implies ((#[trigger] hist[a + 1]) == hist[a] || flt(
                hist[a + 1],
                hist[a],
            )) by {
                if a < hist0.len() - 1 {
                    assert(hist[a] == hist0[a]);
                    assert(hist[a + 1] == hist0[a + 1]);
                    assert(hist0[a + 1] == hist0[a] || flt(hist0[a + 1], hist0[a]));
                } else {
                    assert(hist[a] == prev_best);
                    assert(hist[a + 1] == best_error);
                }
            }
        }
        if i > 5 {
            let prev = errors[errors.len() - PLATEAU_LOOKBACK];
            let ratio = div_bits(min_error, prev);
            if lt_bits(PLATEAU_RATIO, ratio) {
                speed = MutateSpeed::Fine;
            }
        }
        proof {
            lemma_speed_after_prefix(errors0, errors@, i as nat);
            assert(speed == speed_after(errors@, (i + 1) as nat));
        }
        i = i + 1;
    }
    proof {
        assert forall|j: int|
            0 <= j < rounds.len() implies round_ok(
            #[trigger] rounds[j],
            data_points@,
            target,
            speed_sd(speed_after(mins_of(rounds), j as nat)),
            old(draws).gauss@,
        ) by {
            assert(round_ok(
                rounds[j],
                data_points@,
                target,
                speed_sd(speed_after(errors@, j as nat)),
                old(draws).gauss@,
            ));
            assert forall|j2: int| 0 <= j2 < j implies mins_of(rounds)[j2] == errors@[j2] by {
                assert(rounds[j2].round_min == errors@[j2]);
            }
            lemma_speed_after_prefix(errors@, mins_of(rounds), j as nat);
        }
    }
    (best_creature, Ghost(hist), Ghost(rounds))
}

/// Why a run is refused before any work begins.
#[derive(Clone, Copy, PartialEq, Eq, Structural, Debug)]
pub enum EvoError {
    /// A zero population size, cycle count or layer cap; no data; or a
    /// first row too wide for the per-layer inclusion ratio.
    Configuration,
    /// Some row lacks the target parameter.
    DataContractViolation,
}

/// The configuration checks that reject a run outright.
pub open spec fn bad_config(
    data: Seq<Vec<(usize, u32)>>,
    num_creatures: u32,
    num_cycles: u16,
    max_layers: u8,
) -> bool {
    ||| num_creatures == 0
    ||| num_cycles == 0
    ||| max_layers == 0
    ||| data.len() == 0
    ||| data[0]@.len() > 100_000
}

/// Whether some row lacks the target parameter.
pub open spec fn missing_target(data: Seq<Vec<(usize, u32)>>, target: usize) -> bool {
    exists|i: int| 0 <= i < data.len() && row_lookup((#[trigger] data[i])@, target) is None
}

/// Whether `p` occurs in a list of parameter indices.
fn contains_idx(v: &Vec<usize>, p: usize) -> (r: bool)
    ensures
        r == v@.contains(p),
{
    let mut i: usize = 0;
    while i < v.len()
        invariant
            i <= v@.len(),
            forall|j: int| 0 <= j < i ==> v@[j] != p,
        decreases v@.len() - i,
    {
        if v[i] == p {
            return true;
        }
        i = i + 1;
    }
    false
}

/// One full cycle of the loop: score every unscored creature, record the
/// champion, cull at the median, breed from the top half of the
/// survivors, and restore the population to exactly `num_creatures` by
/// truncation or by freshly built creatures.  The returned champion holds
/// this cycle's key-least cached error, and every returned creature is a
/// survivor, a mutant of one, or freshly built (`cycle_member_ok`).
pub fn evolution_cycle(
    creatures: Vec<Creature>,
    standardized_data: &Vec<Vec<(usize, u32)>>,
    target: usize,
    num_creatures: u32,
    parameter_options: &Vec<usize>,
    max_layers: u8,
    draws: &mut Draws,
    gen_cap: u32,
) -> (r: (Vec<Creature>, Creature))
    requires
        draws_wf(*old(draws)),
        opts_ok(parameter_options@),
        max_layers >= 1,
        num_creatures >= 1,
        creatures@.len() == num_creatures,
        rows_have_target(standardized_data@, target),
        all_truthful(creatures@, standardized_data@, target),
        forall|i: int|
            0 <= i < creatures@.len() ==> avoids_param(#[trigger] creatures@[i], target),
        !parameter_options@.contains(target),
        gens_at_most(creatures@, gen_cap),
        gen_cap < u32::MAX - 1,
    ensures
        draws_wf(*final(draws)),
        final(draws).tri@ == old(draws).tri@,
        final(draws).gauss@ == old(draws).gauss@,
        r.0@.len() == num_creatures,
        gens_at_most(r.0@, (gen_cap + 1) as u32),
        all_truthful(r.0@, standardized_data@, target),
        forall|i: int| 0 <= i < r.0@.len() ==> avoids_param(#[trigger] r.0@[i], target),
        forall|m: int|
            0 <= m < r.0@.len() ==> cycle_member_ok(
                #[trigger] r.0@[m],
                scored_pop(creatures@, standardized_data@, target),
                parameter_options@,
                max_layers,
                old(draws).gauss@,
            ),
        cycle_layout(
            r.0@,
            scored_pop(creatures@, standardized_data@, target),
            parameter_options@,
            max_layers,
            old(draws).gauss@,
        ),
        cache_truthful(r.1, standardized_data@, target),
        avoids_param(r.1, target),
        r.1.cached_error_sum == Some(
            errs_of(scored_pop(creatures@, standardized_data@, target)).sort_by(by_key())[0],
        ),
        exists|i: int|
            0 <= i < creatures@.len() && creature_like(
                r.1,
                scored_pop(creatures@, standardized_data@, target)[i],
            ),
        r.1.generation <= gen_cap,
{
    let mut creatures = creatures;
    let ghost before = creatures@;
    score_parallel(&mut creatures, standardized_data, target);
    proof {
        assert forall|i: int|
            0 <= i < creatures@.len() implies {
            &&& (#[trigger] creatures@[i]).cached_error_sum is Some
            &&& creatures@[i].generation <= gen_cap
            &&& cache_truthful(creatures@[i], standardized_data@, target)
            &&& avoids_param(creatures@[i], target)
        } by {
            assert(scored_rel(before[i], creatures@[i], standardized_data@, target));
            assert(creatures@[i].equation == before[i].equation);
            assert(cache_truthful(before[i], standardized_data@, target));
            assert(avoids_param(before[i], target));
        }
        assert forall|i: int|
            0 <= i < creatures@.len() implies #[trigger] creatures@[i] == scored_pop(
            before,
            standardized_data@,
            target,
        )[i] by {
            assert(scored_rel(before[i], creatures@[i], standardized_data@, target));
            assert(creatures@[i] =~= scored_version(before[i], standardized_data@, target));
        }
        assert(creatures@ =~= scored_pop(before, standardized_data@, target));
        assert(errs_of(creatures@) =~= errs_of(scored_pop(before, standardized_data@, target)));
    }
    let pair = error_results(&creatures);
    let min_error = pair.0;
    let median_error = pair.1;
    let idx = find_by_error(&creatures, min_error);
    let champion = creatures[idx].clone();
    proof {
        assert(champion.cached_error_sum == Some(min_error));
        assert(champion.generation <= gen_cap);
        lemma_error_sum_like(
            champion.equation@,
            creatures@[idx as int].equation@,
            standardized_data@,
            target,
        );
        lemma_like_avoids(creatures@[idx as int], champion, target);
        assert(creature_like(
            champion,
            scored_pop(before, standardized_data@, target)[idx as int],
        ));
    }
    let ghost scored = creatures@;
    let creatures2 = kill_weak_creatures(creatures, median_error);
    proof {
        assert forall|m: int|
            0 <= m < creatures2@.len() implies {
            &&& (#[trigger] creatures2@[m]).generation <= gen_cap
            &&& cache_truthful(creatures2@[m], standardized_data@, target)
            &&& avoids_param(creatures2@[m], target)
        } by {
            assert(scored.contains(creatures2@[m]));
            let w = choose|w: int| 0 <= w < scored.len() && scored[w] == creatures2@[m];
            assert(scored[w].generation <= gen_cap);
            assert(cache_truthful(scored[w], standardized_data@, target));
            assert(avoids_param(scored[w], target));
        }
        assert forall|m: int|
            0 <= m < creatures2@.len() implies cycle_member_ok(
            #[trigger] creatures2@[m],
            scored,
            parameter_options@,
            max_layers,
            old(draws).gauss@,
        ) by {
            assert(scored.contains(creatures2@[m]));
            assert(flt(creatures2@[m].cached_error_sum.unwrap(), median_error));
        }
    }
    let mut mutants = mutated_top_creatures(&creatures2, min_error, median_error, draws, gen_cap);
    proof {
        assert forall|m: int|
            0 <= m < mutants@.len() implies cache_truthful(
            #[trigger] mutants@[m],
            standardized_data@,
            target,
        ) && avoids_param(mutants@[m], target) by {
            assert(mutants@[m].cached_error_sum is None);
            assert(bred_from_strong(
                mutants@,
                m,
                creatures2@,
                mut_cutoff(min_error, median_error),
                old(draws).gauss@,
            ));
            let j2 = choose|j2: int|
                0 <= j2 < creatures2@.len() && flt(
                    creatures2@[j2].cached_error_sum.unwrap(),
                    mut_cutoff(min_error, median_error),
                ) && #[trigger] mutant_of(mutants@[m], creatures2@[j2])
                    && crate::creature::creature_perturbed(
                    creatures2@[j2],
                    mutants@[m],
                    speed_sd(MutateSpeed::Fast),
                    old(draws).gauss@,
                );
            lemma_mutant_avoids(creatures2@[j2], mutants@[m], target);
        }
        assert forall|m: int|
            0 <= m < mutants@.len() implies cycle_member_ok(
            #[trigger] mutants@[m],
            scored,
            parameter_options@,
            max_layers,
            old(draws).gauss@,
        ) by {
            assert(bred_from_strong(
                mutants@,
                m,
                creatures2@,
                mut_cutoff(min_error, median_error),
                old(draws).gauss@,
            ));
            let j2 = choose|j2: int|
                0 <= j2 < creatures2@.len() && flt(
                    creatures2@[j2].cached_error_sum.unwrap(),
                    mut_cutoff(min_error, median_error),
                ) && #[trigger] mutant_of(mutants@[m], creatures2@[j2])
                    && crate::creature::creature_perturbed(
                    creatures2@[j2],
                    mutants@[m],
                    speed_sd(MutateSpeed::Fast),
                    old(draws).gauss@,
                );
            assert(scored.contains(creatures2@[j2]));
            let w = choose|w: int| 0 <= w < scored.len() && scored[w] == creatures2@[j2];
            assert(flt(scored[w].cached_error_sum.unwrap(), mut_cutoff(min_error, median_error))
                && mutant_of(mutants@[m], scored[w])
                && crate::creature::creature_perturbed(
                scored[w],
                mutants@[m],
                speed_sd(MutateSpeed::Fast),
                old(draws).gauss@,
            ));
            assert(bred_one(
                mutants@[m],
                scored,
                mut_cutoff(min_error, median_error),
                old(draws).gauss@,
            ));
        }
    }
    let ghost survivors_view = creatures2@;
    let ghost muts_view = mutants@;
    let mut creatures3 = creatures2;
    creatures3.append(&mut mutants);
    let ghost base = creatures3@;
    proof {
        let ghost muts = creatures3@.subrange(
            survivors_view.len() as int,
            creatures3@.len() as int,
        );
        assert forall|m: int|
            0 <= m < creatures3@.len() implies cycle_member_ok(
            #[trigger] creatures3@[m],
            scored,
            parameter_options@,
            max_layers,
            old(draws).gauss@,
        ) by {
            if m < survivors_view.len() {
                assert(creatures3@[m] == survivors_view[m]);
            } else {
                assert(cycle_member_ok(
                    creatures3@.subrange(
                        survivors_view.len() as int,
                        creatures3@.len() as int,
                    )[m - survivors_view.len()],
                    scored,
                    parameter_options@,
                    max_layers,
                    old(draws).gauss@,
                ));
            }
        }
    }
    let cap = num_creatures as usize;
    if creatures3.len() > cap {
        let ghost pre = creatures3@;
        creatures3.truncate(cap);
        proof {
            assert forall|m: int|
                0 <= m < creatures3@.len() implies cycle_member_ok(
                #[trigger] creatures3@[m],
                scored,
                parameter_options@,
                max_layers,
                old(draws).gauss@,
            ) by {
                assert(creatures3@[m] == pre[m]);
            }
        }
    }
    let ghost after_trunc = creatures3@;
    proof {
        assert(after_trunc.len() == if base.len() > cap as int {
            cap as int
        } else {
            base.len() as int
        });
        assert forall|m: int|
            0 <= m < after_trunc.len() implies #[trigger] after_trunc[m] == base[m] by {}
    }
    let have = creatures3.len();
    if have < cap {
        let need: u32 = num_creatures - (have as u32);
        let mut fresh = Creature::create_many_parallel(need, parameter_options, max_layers, draws);
        proof {
            assert forall|i: int|
                0 <= i < fresh@.len() implies (#[trigger] fresh@[i]).generation <= (gen_cap
                + 1) as u32 && cache_truthful(fresh@[i], standardized_data@, target)
                && avoids_param(fresh@[i], target) by {
                assert(crate::creature::fresh_creature_ok(
                    fresh@[i],
                    parameter_options@,
                    max_layers,
                ));
                lemma_fresh_avoids(fresh@[i], parameter_options@, target);
            }
        }
        let ghost kept = creatures3@;
        let ghost fresh_view = fresh@;
        creatures3.append(&mut fresh);
        proof {
            assert forall|m: int|
                kept.len() <= m < creatures3@.len() implies crate::creature::fresh_creature_ok(
                #[trigger] creatures3@[m],
                parameter_options@,
                max_layers,
            ) by {
                assert(creatures3@[m] == fresh_view[m - kept.len()]);
            }
            assert forall|m: int|
                0 <= m < creatures3@.len() implies cycle_member_ok(
                #[trigger] creatures3@[m],
                scored,
                parameter_options@,
                max_layers,
                old(draws).gauss@,
            ) by {
                if m < kept.len() {
                    assert(creatures3@[m] == kept[m]);
                } else {
                    assert(creatures3@[m] == fresh_view[m - kept.len()]);
                    assert(crate::creature::fresh_creature_ok(
                        fresh_view[m - kept.len()],
                        parameter_options@,
                        max_layers,
                    ));
                }
            }
        }
    }
    proof {
        let sorted = errs_of(scored).sort_by(by_key());
        let median = sorted[scored.len() as int / 2];
        let minv = sorted[0];
        let cutoff = mut_cutoff(minv, median);
        let surv = survivors(scored, median);
        let poss = strong_positions(surv, cutoff);
        let out = creatures3@;
        assert(surv == survivors_view);
        assert(median == median_error);
        assert(minv == min_error);
        assert(muts_view.len() == poss.len());
        assert(base == survivors_view + muts_view);
        assert forall|m: int|
            0 <= m < after_trunc.len() implies #[trigger] out[m] == base[m] by {
            assert(out[m] == after_trunc[m]);
        }
        let n_surv: int = if surv.len() <= out.len() {
            surv.len() as int
        } else {
            out.len() as int
        };
        let n_bred: int = if surv.len() + poss.len() <= out.len() {
            poss.len() as int
        } else if out.len() >= surv.len() {
            out.len() - surv.len()
        } else {
            0
        };
        assert forall|m: int| #![trigger out[m]] 0 <= m < n_surv implies out[m] == surv[m] by {
            assert(m < after_trunc.len());
            assert(out[m] == base[m]);
            assert(base[m] == survivors_view[m]);
        }
        assert forall|m: int|
            #![trigger out[m]]
            n_surv <= m < n_surv + n_bred implies {
            &&& 0 <= poss[m - n_surv]
            &&& poss[m - n_surv] < surv.len()
            &&& mutant_of(out[m], surv[poss[m - n_surv]])
            &&& crate::creature::creature_perturbed(
                surv[poss[m - n_surv]],
                out[m],
                speed_sd(MutateSpeed::Fast),
                old(draws).gauss@,
            )
        } by {
            assert(n_surv == surv.len() as int);
            assert(m < after_trunc.len());
            assert(out[m] == base[m]);
            assert(base[m] == muts_view[m - surv.len()]);
            assert(bred_at(
                muts_view,
                m - surv.len(),
                survivors_view,
                cutoff,
                survivors_view.len(),
                old(draws).gauss@,
            ));
        }
        assert forall|m: int|
            #![trigger out[m]]
            n_surv + n_bred <= m < out.len() implies crate::creature::fresh_creature_ok(
            out[m],
            parameter_options@,
            max_layers,
        ) by {
            assert(m >= after_trunc.len());
        }
        lemma_strong_prefix_range(surv, cutoff, surv.len());
        assert(cycle_layout(out, scored, parameter_options@, max_layers, old(draws).gauss@));
        assert(scored == scored_pop(before, standardized_data@, target));
    }
    (creatures3, champion)
}

/// A finished run: the configuration, the fitted standardizer, the
/// champion of every cycle, and the refined best creature, whose error is
/// at or below every champion's in the IEEE total order.
pub struct Evolution {
    pub target: usize,
    pub num_creatures: u32,
    pub num_cycles: u16,
    pub standardizer: Standardizer,
    pub best_creatures: Vec<Creature>,
    pub best_creature: Creature,
}

impl Evolution {
    /// Run the whole search: validate the configuration and the data, fit
    /// the standardizer, build the initial population, run the cycles,
    /// and refine the best champion found.
    pub fn new(
        target: usize,
        data: &Vec<Vec<(usize, u32)>>,
        num_creatures: u32,
        num_cycles: u16,
        max_layers: u8,
        draws: &mut Draws,
    ) -> (r: Result<Evolution, EvoError>)
        requires
            draws_wf(*old(draws)),
        ensures
            draws_wf(*final(draws)),
            final(draws).tri@ == old(draws).tri@,
            final(draws).gauss@ == old(draws).gauss@,
            r == Err::<Evolution, EvoError>(EvoError::Configuration) <==> bad_config(
                data@,
                num_creatures,
                num_cycles,
                max_layers,
            ),
            r == Err::<Evolution, EvoError>(EvoError::DataContractViolation) <==> (!bad_config(
                data@,
                num_creatures,
                num_cycles,
                max_layers,
            ) && missing_target(data@, target)),
            r is Ok <==> (!bad_config(data@, num_creatures, num_cycles, max_layers)
                && !missing_target(data@, target)),
            r matches Ok(evo) ==> {
                &&& evo.target == target
                &&& evo.num_creatures == num_creatures
                &&& evo.num_cycles == num_cycles
                &&& evo.best_creatures@.len() == num_cycles
                &&& all_scored(evo.best_creatures@)
                &&& evo.best_creature.cached_error_sum is Some
                &&& forall|i: int|
                    0 <= i < evo.best_creatures@.len() ==> key_le(
                        evo.best_creature.cached_error_sum.unwrap(),
                        (#[trigger] evo.best_creatures@[i]).cached_error_sum.unwrap(),
                    )
                &&& fitted_to(evo.standardizer.stats@, data@)
                &&& avoids_param(evo.best_creature, target)
                &&& forall|i: int|
                    0 <= i < evo.best_creatures@.len() ==> avoids_param(
                        #[trigger] evo.best_creatures@[i],
                        target,
                    )
                &&& forall|i: int|
                    0 <= i < evo.best_creatures@.len() ==> (
                    #[trigger] evo.best_creatures@[i]).cached_error_sum == Some(
                        error_sum_of_rows(
                            evo.best_creatures@[i].equation@,
                            std_rows(evo.standardizer.stats@, data@),
                            target,
                        ),
                    )
                &&& evo.best_creature.cached_error_sum == Some(
                    error_sum_of_rows(
                        evo.best_creature.equation@,
                        std_rows(evo.standardizer.stats@, data@),
                        target,
                    ),
                )
            },
    {
        if num_creatures == 0 || num_cycles == 0 || max_layers == 0 || data.len() == 0
            || data[0].len() > 100_000 {
            return Err(EvoError::Configuration);
        }
        // Candidate parameters: the distinct indices of the first row,
        // excluding the target.
        let first_row = &data[0];
        let mut parameter_options: Vec<usize> = Vec::new();
        let mut j: usize = 0;
        while j < first_row.len()
            invariant
                first_row == &data@[0],
                data@.len() > 0,
                j <= first_row@.len(),
                parameter_options@.len() <= j,
                first_row@.len() <= 100_000,
                forall|a: int, b: int|
                    0 <= a < b < parameter_options@.len() ==> parameter_options@[a]
                        != parameter_options@[b],
                forall|a: int|
                    0 <= a < parameter_options@.len() ==> #[trigger] parameter_options@[a]
                        != target,
                parameter_options@.len() <= 100_000,
            decreases first_row@.len() - j,
        {
            let p = first_row[j].0;
            if p != target && !contains_idx(&parameter_options, p) {
                let ghost opts0 = parameter_options@;
                parameter_options.push(p);
                proof {
                    assert forall|a: int, b: int|
                        0 <= a < b < parameter_options@.len() implies parameter_options@[a]
                        != parameter_options@[b] by {
                        if b == parameter_options@.len() - 1 {
                            assert(parameter_options@[b] == p);
                            assert(parameter_options@[a] == opts0[a]);
                            assert(!opts0.contains(p));
                        }
                    }
                }
            }
            j = j + 1;
        }
        // Every row must carry the target.
        let mut i: usize = 0;
        while i < data.len()
            invariant
                i <= data@.len(),
                draws_wf(*draws),
                draws.tri@ == old(draws).tri@,
                draws.gauss@ == old(draws).gauss@,
                !bad_config(data@, num_creatures, num_cycles, max_layers),
                forall|i2: int|
                    0 <= i2 < i ==> row_lookup((#[trigger] data@[i2])@, target) is Some,
            decreases data@.len() - i,
        {
            match lookup_row(&data[i], target) {
                Some(_) => {},
                None => {
                    return Err(EvoError::DataContractViolation);
                },
            }
            i = i + 1;
        }
        let standardizer = Standardizer::new(data);
        let standardized_data = standardizer.standardized_values(data);
        proof {
            assert forall|i2: int|
                0 <= i2 < standardized_data@.len() implies row_lookup(
                (#[trigger] standardized_data@[i2])@,
                target,
            ) is Some by {
                crate::rows::lemma_lookup_same_keys(data@[i2]@, standardized_data@[i2]@, target);
            }
        }
        proof {
            if parameter_options@.contains(target) {
                let a = choose|a: int|
                    0 <= a < parameter_options@.len() && parameter_options@[a] == target;
                assert(false);
            }
        }
        let mut creatures = Creature::create_many_parallel(
            num_creatures,
            &parameter_options,
            max_layers,
            draws,
        );
        proof {
            assert forall|i2: int|
                0 <= i2 < creatures@.len() implies cache_truthful(
                #[trigger] creatures@[i2],
                standardized_data@,
                target,
            ) && avoids_param(creatures@[i2], target) by {
                assert(crate::creature::fresh_creature_ok(
                    creatures@[i2],
                    parameter_options@,
                    max_layers,
                ));
                lemma_fresh_avoids(creatures@[i2], parameter_options@, target);
            }
        }
        let mut best_creatures: Vec<Creature> = Vec::new();
        let mut cycle: u16 = 0;
        while cycle < num_cycles
            invariant
                draws_wf(*draws),
                draws.tri@ == old(draws).tri@,
                draws.gauss@ == old(draws).gauss@,
                opts_ok(parameter_options@),
                max_layers >= 1,
                num_creatures >= 1,
                rows_have_target(standardized_data@, target),
                cycle <= num_cycles,
                creatures@.len() == num_creatures,
                gens_at_most(creatures@, (cycle + 1) as u32),
                all_truthful(creatures@, standardized_data@, target),
                forall|i2: int|
                    0 <= i2 < creatures@.len() ==> avoids_param(
                        #[trigger] creatures@[i2],
                        target,
                    ),
                !parameter_options@.contains(target),
                best_creatures@.len() == cycle,
                all_scored(best_creatures@),
                gens_at_most(best_creatures@, num_cycles as u32),
                all_truthful(best_creatures@, standardized_data@, target),
                forall|i2: int|
                    0 <= i2 < best_creatures@.len() ==> avoids_param(
                        #[trigger] best_creatures@[i2],
                        target,
                    ),
            decreases num_cycles - cycle,
        {
            let pair = evolution_cycle(
                creatures,
                &standardized_data,
                target,
                num_creatures,
                &parameter_options,
                max_layers,
                draws,
                (cycle as u32) + 1,
            );
            creatures = pair.0;
            best_creatures.push(pair.1);
            cycle = cycle + 1;
        }
        // The best champion across all cycles: the key-least cached error.
        let mut best_idx: usize = 0;
        let mut k: usize = 1;
        proof {
            assert(best_creatures@.len() == num_cycles >= 1);
        }
        while k < best_creatures.len()
            invariant
                best_creatures@.len() >= 1,
                all_scored(best_creatures@),
                best_idx < k,
                k <= best_creatures@.len(),
                forall|i2: int|
                    0 <= i2 < k ==> key_le(
                        best_creatures@[best_idx as int].cached_error_sum.unwrap(),
                        (#[trigger] best_creatures@[i2]).cached_error_sum.unwrap(),
                    ),
            decreases best_creatures@.len() - k,
        {
            proof {
                assert(best_creatures@[k as int].cached_error_sum is Some);
                assert(best_creatures@[best_idx as int].cached_error_sum is Some);
            }
            let ek = best_creatures[k].cached_error_sum.unwrap();
            let eb = best_creatures[best_idx].cached_error_sum.unwrap();
            if !crate::numeric::le_key_bits(eb, ek) {
                best_idx = k;
            }
            k = k + 1;
        }
        let refined = optimize_creature(
            &best_creatures[best_idx],
            &standardized_data,
            target,
            30,
            draws,
        );
        let optimized_creature = refined.0;
        proof {
            let be = best_creatures@[best_idx as int].cached_error_sum.unwrap();
            let oe = optimized_creature.cached_error_sum.unwrap();
            assert forall|i2: int|
                0 <= i2 < best_creatures@.len() implies key_le(
                oe,
                (#[trigger] best_creatures@[i2]).cached_error_sum.unwrap(),
            ) by {
                assert(key_le(be, best_creatures@[i2].cached_error_sum.unwrap()));
                assert(oe == be || flt(oe, be));
            }
            let rows_s = std_rows(standardizer.stats@, data@);
            assert forall|i2: int|
                0 <= i2 < standardized_data@.len() implies (#[trigger] standardized_data@[i2])@
                == rows_s[i2] by {
                assert(standardized_data@[i2]@ == std_row(standardizer.stats@, data@[i2]@));
            }
            assert forall|i2: int|
                0 <= i2 < best_creatures@.len() implies (
            #[trigger] best_creatures@[i2]).cached_error_sum == Some(
                error_sum_of_rows(best_creatures@[i2].equation@, rows_s, target),
            ) by {
                assert(cache_truthful(best_creatures@[i2], standardized_data@, target));
                assert(best_creatures@[i2].cached_error_sum is Some);
                lemma_error_sum_views(
                    best_creatures@[i2].equation@,
                    standardized_data@,
                    rows_s,
                    target,
                );
            }
            assert(cache_truthful(optimized_creature, standardized_data@, target));
            lemma_error_sum_views(
                optimized_creature.equation@,
                standardized_data@,
                rows_s,
                target,
            );
        }
        Ok(Evolution {
            target,
            num_creatures,
            num_cycles,
            standardizer,
            best_creatures,
            best_creature: optimized_creature,
        })
    }

    /// Standardize a raw point, evaluate the refined creature on it, and
    /// destandardize the result against the target parameter's transform.
    pub fn predict_point(&self, data_point: &Vec<(usize, u32)>) -> (r: u32)
        ensures
            r == destd_tx(
                stats_lookup(self.standardizer.stats@, self.target),
                creature_calc(
                    self.best_creature.equation@,
                    std_row(self.standardizer.stats@, data_point@),
                ),
            ),
    {
        let standardized_point = self.standardizer.standardized_value(data_point);
        let result = self.best_creature.calculate(&standardized_point);
        self.standardizer.unstandardize_value(self.target, result)
    }
}

/// The least error among the first `k` entries of a champion history,
/// in the IEEE total order.
pub open spec fn best_so_far(errs: Seq<u32>, k: nat) -> u32
    recommends
        1 <= k <= errs.len(),
    decreases k,
{
    if k <= 1 {
        errs[0]
    } else {
        let prev = best_so_far(errs, (k - 1) as nat);
        if key_le(prev, errs[k - 1]) {
            prev
        } else {
            errs[k - 1]
        }
    }
}

/// Across cycles, the best error seen so far never increases: a longer
/// prefix of the champion history has a running least error at or below
/// that of any shorter prefix, even though a later champion can itself be
/// worse than an earlier one.
pub proof fn lemma_best_so_far_monotone(errs: Seq<u32>, k1: nat, k2: nat)
    requires
        1 <= k1 <= k2 <= errs.len(),
    ensures
        key_le(best_so_far(errs, k2), best_so_far(errs, k1)),
    decreases k2,
{
    if k2 > k1 {
        lemma_best_so_far_monotone(errs, k1, (k2 - 1) as nat);
    }
}

} // verus!

//! Candidate functions.
//!
//! A `Creature` is a randomly generated candidate function: an ordered stack
//! of `LayerModifiers`.  Each layer maps input-parameter indices to
//! `Coefficients` terms, optionally weights the previous layer's output,
//! and adds a bias.  Parameters are identified by dense indices; every
//! numeric field is a binary32 bit pattern (see `numeric`).

use vstd::prelude::*;
use crate::numeric::{
    add_of, mul_of, neg_of, sub_of, F_ONE, F_TWO, F_ZERO, SD_FAST, SD_FINE, SD_BIAS,
    add_bits, mul_bits, sub_bits, negate_bits,
};
use crate::draws::{coin_ratio, pick_below, draws_wf, drawn_from, Draws};
use rayon::iter::{IntoParallelIterator, ParallelIterator};

verus! {

/// One weighted power term: the value of the term at `v` is
/// `c * (b * v + z) ^ x`.
#[derive(Clone, Copy)]
pub struct Coefficients {
    pub c: u32,
    pub b: u32,
    pub z: u32,
    pub x: u8,
}

/// One layer of a candidate function.
pub struct LayerModifiers {
    /// Terms keyed by input-parameter index; the indices are distinct.
    pub modifiers: Vec<(usize, Coefficients)>,
    /// Term applied to the previous layer's output: present on every layer
    /// except the first.
    pub previous_layer_coefficients: Option<Coefficients>,
    /// Bias added to the layer's output.
    pub layer_bias: u32,
}

/// A candidate function with its cached score and its mutation depth.
#[verifier::ext_equal]
pub struct Creature {
    pub equation: Vec<LayerModifiers>,
    /// Mean squared error over the training rows, set once by the
    /// evaluator; cleared on construction and on mutation.
    pub cached_error_sum: Option<u32>,
    /// 1 at creation, incremented by exactly 1 per mutation.
    pub generation: u32,
}

/// How far a mutation perturbs the numeric fields.
#[derive(Clone, Copy)]
pub enum MutateSpeed {
    Fine,
    Fast,
}

/// Two layers holding the same content.  `LayerModifiers` carries a `Vec`,
/// whose spec equality is not implied by view equality, so contracts state
/// sameness of layers through this relation.
pub open spec fn layer_like(a: LayerModifiers, b: LayerModifiers) -> bool {
    &&& a.modifiers@ == b.modifiers@
    &&& a.previous_layer_coefficients == b.previous_layer_coefficients
    &&& a.layer_bias == b.layer_bias
}

/// Two creatures holding the same content, layer for layer.
pub open spec fn creature_like(a: Creature, b: Creature) -> bool {
    &&& a.equation@.len() == b.equation@.len()
    &&& forall|i: int|
        0 <= i < a.equation@.len() ==> layer_like(
            #[trigger] a.equation@[i],
            #[trigger] b.equation@[i],
        )
    &&& a.cached_error_sum == b.cached_error_sum
    &&& a.generation == b.generation
}

/// The exponent invariant: never below one.
pub open spec fn coef_wf(cf: Coefficients) -> bool {
    1 <= cf.x
}

/// A freshly constructed exponent: one, two or three.
pub open spec fn coef_fresh(cf: Coefficients) -> bool {
    1 <= cf.x <= 3
}

/// A layer is well formed when its modifier indices are distinct and every
/// term keeps the exponent invariant.
pub open spec fn layer_wf(l: LayerModifiers) -> bool {
    &&& forall|j: int, k: int|
        0 <= j < k < l.modifiers@.len() ==> (#[trigger] l.modifiers@[j]).0 != (
        #[trigger] l.modifiers@[k]).0
    &&& forall|j: int| 0 <= j < l.modifiers@.len() ==> coef_wf((#[trigger] l.modifiers@[j]).1)
    &&& match l.previous_layer_coefficients {
        Some(cf) => coef_wf(cf),
        None => true,
    }
}

/// A layer whose every term is freshly constructed.
pub open spec fn layer_fresh(l: LayerModifiers) -> bool {
    &&& forall|j: int| 0 <= j < l.modifiers@.len() ==> coef_fresh((#[trigger] l.modifiers@[j]).1)
    &&& match l.previous_layer_coefficients {
        Some(cf) => coef_fresh(cf),
        None => true,
    }
}

/// A layer stack is well formed when it is non-empty, exactly the first
/// layer lacks a previous-layer term, and every layer is well formed.
pub open spec fn equation_wf(eqs: Seq<LayerModifiers>) -> bool {
    &&& 1 <= eqs.len()
    &&& eqs[0].previous_layer_coefficients is None
    &&& forall|i: int|
        1 <= i < eqs.len() ==> (#[trigger] eqs[i]).previous_layer_coefficients is Some
    &&& forall|i: int| 0 <= i < eqs.len() ==> layer_wf(#[trigger] eqs[i])
}

/// Every modifier index of every layer names one of the candidate
/// parameters.
pub open spec fn equation_over(eqs: Seq<LayerModifiers>, opts: Seq<usize>) -> bool {
    forall|i: int, j: int|
        0 <= i < eqs.len() && 0 <= j < eqs[i].modifiers@.len() ==> opts.contains(
            (#[trigger] eqs[i].modifiers@[j]).0,
        )
}

/// What `Creature::new` promises of a fresh creature.
pub open spec fn fresh_creature_ok(cr: Creature, opts: Seq<usize>, max_layers: u8) -> bool {
    &&& equation_wf(cr.equation@)
    &&& equation_over(cr.equation@, opts)
    &&& forall|i: int| 0 <= i < cr.equation@.len() ==> layer_fresh(#[trigger] cr.equation@[i])
    &&& 1 <= cr.equation@.len() <= 3
    &&& cr.equation@.len() <= max_layers
    &&& cr.cached_error_sum is None
    &&& cr.generation == 1
}

/// The candidate-parameter lists this crate accepts: distinct indices, few
/// enough that the per-layer inclusion ratio fits machine arithmetic.
pub open spec fn opts_ok(opts: Seq<usize>) -> bool {
    &&& forall|j: int, k: int| 0 <= j < k < opts.len() ==> opts[j] != opts[k]
    &&& opts.len() <= 100_000
}

/// The power `base ^ e` as iterated binary32 multiplication; for exponents
/// zero and one it is the base itself.
pub open spec fn pow_of(base: u32, e: nat) -> u32
    decreases e,
{
    if e <= 1 {
        base
    } else {
        mul_of(pow_of(base, (e - 1) as nat), base)
    }
}

/// The value of one term at `v`: `c * (b * v + z) ^ x`.
pub open spec fn coef_calc(cf: Coefficients, v: u32) -> u32 {
    mul_of(cf.c, pow_of(add_of(mul_of(cf.b, v), cf.z), cf.x as nat))
}

/// The first term keyed `p`, if any.
pub open spec fn mods_lookup(mods: Seq<(usize, Coefficients)>, p: usize) -> Option<Coefficients>
    decreases mods.len(),
{
    if mods.len() == 0 {
        None
    } else if mods[0].0 == p {
        Some(mods[0].1)
    } else {
        mods_lookup(mods.drop_first(), p)
    }
}

/// The layer's own sum over the first `k` row entries: each entry whose
/// index the layer references contributes its term's value; the sum starts
/// at zero for every layer.
pub open spec fn inner_after(
    mods: Seq<(usize, Coefficients)>,
    row: Seq<(usize, u32)>,
    k: nat,
) -> u32
    decreases k,
{
    if k == 0 {
        F_ZERO
    } else {
        let prev = inner_after(mods, row, (k - 1) as nat);
        match mods_lookup(mods, row[k - 1].0) {
            Some(cf) => add_of(prev, coef_calc(cf, row[k - 1].1)),
            None => prev,
        }
    }
}

/// One layer's output: its own sum over the row, plus the weighted
/// previous-layer output if the layer carries that term, plus the bias.
pub open spec fn layer_step(l: LayerModifiers, row: Seq<(usize, u32)>, total: u32) -> u32 {
    let own = inner_after(l.modifiers@, row, row.len());
    let with_prev = match l.previous_layer_coefficients {
        Some(cf) => add_of(own, coef_calc(cf, total)),
        None => own,
    };
    add_of(with_prev, l.layer_bias)
}

/// The output after the first `k` layers.
pub open spec fn calc_layers(eqs: Seq<LayerModifiers>, row: Seq<(usize, u32)>, k: nat) -> u32
    decreases k,
{
    if k == 0 {
        F_ZERO
    } else {
        layer_step(eqs[k - 1], row, calc_layers(eqs, row, (k - 1) as nat))
    }
}

/// A creature's output on a row: the final layer's output.
pub open spec fn creature_calc(eqs: Seq<LayerModifiers>, row: Seq<(usize, u32)>) -> u32 {
    calc_layers(eqs, row, eqs.len())
}

/// The relation between a term and its mutated copy: the exponent moves by
/// at most one, never below one, and saturates at the top of its type.
pub open spec fn coef_mutated(a: Coefficients, b: Coefficients) -> bool {
    ||| b.x == a.x
    ||| (a.x < 255 && b.x == a.x + 1)
    ||| (a.x > 1 && b.x == a.x - 1)
}

/// The relation between a layer and its mutated copy: same shape — same
/// modifier count and indices, previous-layer term present on the same
/// side — with each term mutated.
pub open spec fn layer_mutated(a: LayerModifiers, b: LayerModifiers) -> bool {
    &&& b.modifiers@.len() == a.modifiers@.len()
    &&& forall|j: int|
        0 <= j < a.modifiers@.len() ==> (#[trigger] b.modifiers@[j]).0 == (
        #[trigger] a.modifiers@[j]).0
    &&& forall|j: int|
        0 <= j < a.modifiers@.len() ==> coef_mutated(
            (#[trigger] a.modifiers@[j]).1,
            (#[trigger] b.modifiers@[j]).1,
        )
    &&& match (a.previous_layer_coefficients, b.previous_layer_coefficients) {
        (Some(ac), Some(bc)) => coef_mutated(ac, bc),
        (None, None) => true,
        _ => false,
    }
}

/// What a mutation produces: the generation one higher, the cache cleared,
/// and every layer mutated in place — same shape, perturbed numbers.
pub open spec fn mutant_of(m: Creature, src: Creature) -> bool {
    &&& m.generation == src.generation + 1
    &&& m.cached_error_sum is None
    &&& m.equation@.len() == src.equation@.len()
    &&& forall|i: int|
        0 <= i < src.equation@.len() ==> layer_mutated(
            #[trigger] src.equation@[i],
            #[trigger] m.equation@[i],
        )
}

/// The perturbation spread of a mutation speed.
pub open spec fn speed_sd(speed: MutateSpeed) -> u32 {
    match speed {
        MutateSpeed::Fine => SD_FINE,
        MutateSpeed::Fast => SD_FAST,
    }
}

/// A fresh weight is one, or a triangular sample from the buffer, either
/// possibly negated.
pub open spec fn fresh_weight(v: u32, tri: Seq<u32>) -> bool {
    ||| v == F_ONE
    ||| v == neg_of(F_ONE)
    ||| exists|t: u32| #[trigger] drawn_from(tri, t) && (v == t || v == neg_of(t))
}

/// A fresh offset is zero, or a triangular sample rescaled onto [-2, 2]:
/// twice the sample, minus two.
pub open spec fn fresh_offset(v: u32, tri: Seq<u32>) -> bool {
    ||| v == F_ZERO
    ||| exists|t: u32| #[trigger] drawn_from(tri, t) && v == sub_of(mul_of(t, F_TWO), F_TWO)
}

/// A fresh term's numbers: `c` and `b` are fresh weights, `z` a fresh
/// offset, all drawn from the triangular buffer.
pub open spec fn term_values_fresh(cf: Coefficients, tri: Seq<u32>) -> bool {
    &&& fresh_weight(cf.c, tri)
    &&& fresh_weight(cf.b, tri)
    &&& fresh_offset(cf.z, tri)
}

/// A fresh layer's numbers: every term fresh from the triangular buffer,
/// the bias zero or a Gaussian sample scaled by the bias spread.
pub open spec fn layer_values_fresh(l: LayerModifiers, tri: Seq<u32>, gauss: Seq<u32>) -> bool {
    &&& forall|j: int|
        0 <= j < l.modifiers@.len() ==> term_values_fresh((#[trigger] l.modifiers@[j]).1, tri)
    &&& match l.previous_layer_coefficients {
        Some(cf) => term_values_fresh(cf, tri),
        None => true,
    }
    &&& (l.layer_bias == F_ZERO || exists|g: u32|
        #[trigger] drawn_from(gauss, g) && l.layer_bias == mul_of(g, SD_BIAS))
}

/// A fresh creature's numbers, layer for layer.
pub open spec fn creature_values_fresh(cr: Creature, tri: Seq<u32>, gauss: Seq<u32>) -> bool {
    forall|i: int|
        0 <= i < cr.equation@.len() ==> layer_values_fresh(#[trigger] cr.equation@[i], tri, gauss)
}

/// How one term's numbers move under mutation: each of `c`, `b` and `z`
/// becomes the parent's value plus a Gaussian sample from the buffer
/// scaled by the speed's spread.
pub open spec fn coef_perturbed(a: Coefficients, b: Coefficients, sd: u32, gauss: Seq<u32>) -> bool {
    &&& exists|g: u32| #[trigger] drawn_from(gauss, g) && b.c == add_of(a.c, mul_of(g, sd))
    &&& exists|g: u32| #[trigger] drawn_from(gauss, g) && b.b == add_of(a.b, mul_of(g, sd))
    &&& exists|g: u32| #[trigger] drawn_from(gauss, g) && b.z == add_of(a.z, mul_of(g, sd))
}

/// How one layer's numbers move under mutation: every term perturbed as
/// `coef_perturbed` describes, and the bias either copied unchanged or
/// shifted by a scaled Gaussian sample.
pub open spec fn layer_perturbed(
    a: LayerModifiers,
    b: LayerModifiers,
    sd: u32,
    gauss: Seq<u32>,
) -> bool {
    &&& forall|j: int|
        0 <= j < a.modifiers@.len() ==> coef_perturbed(
            (#[trigger] a.modifiers@[j]).1,
            (#[trigger] b.modifiers@[j]).1,
            sd,
            gauss,
        )
    &&& match (a.previous_layer_coefficients, b.previous_layer_coefficients) {
        (Some(ac), Some(bc)) => coef_perturbed(ac, bc, sd, gauss),
        (None, None) => true,
        _ => false,
    }
    &&& (b.layer_bias == a.layer_bias || exists|g: u32|
        #[trigger] drawn_from(gauss, g) && b.layer_bias == add_of(a.layer_bias, mul_of(g, sd)))
}

/// How a creature's numbers move under mutation, layer for layer.
pub open spec fn creature_perturbed(src: Creature, m: Creature, sd: u32, gauss: Seq<u32>) -> bool {
    forall|i: int|
        0 <= i < src.equation@.len() ==> layer_perturbed(
            #[trigger] src.equation@[i],
            #[trigger] m.equation@[i],
            sd,
            gauss,
        )
}

/// Whether no layer of the creature references parameter `p`.
pub open spec fn avoids_param(c: Creature, p: usize) -> bool {
    forall|i: int, j: int|
        0 <= i < c.equation@.len() && 0 <= j < c.equation@[i].modifiers@.len() ==> (
        #[trigger] c.equation@[i].modifiers@[j]).0 != p
}

/// A creature built over candidate parameters that exclude `p` never
/// references `p`.
pub proof fn lemma_fresh_avoids(cr: Creature, opts: Seq<usize>, p: usize)
    requires
        equation_over(cr.equation@, opts),
        !opts.contains(p),
    ensures
        avoids_param(cr, p),
{
    assert forall|i: int, j: int|
        0 <= i < cr.equation@.len() && 0 <= j < cr.equation@[i].modifiers@.len() implies (
    #[trigger] cr.equation@[i].modifiers@[j]).0 != p by {
        assert(opts.contains(cr.equation@[i].modifiers@[j].0));
    }
}

/// A mutant references exactly its parent's parameters, so it avoids
/// whatever the parent avoids.
pub proof fn lemma_mutant_avoids(src: Creature, m: Creature, p: usize)
    requires
        avoids_param(src, p),
        mutant_of(m, src),
    ensures
        avoids_param(m, p),
{
    assert forall|i: int, j: int|
        0 <= i < m.equation@.len() && 0 <= j < m.equation@[i].modifiers@.len() implies (
    #[trigger] m.equation@[i].modifiers@[j]).0 != p by {
        assert(layer_mutated(src.equation@[i], m.equation@[i]));
        assert(src.equation@[i].modifiers@[j].0 != p);
    }
}

/// A copy holding the same content avoids whatever the source avoids.
pub proof fn lemma_like_avoids(a: Creature, b: Creature, p: usize)
    requires
        avoids_param(a, p),
        creature_like(b, a),
    ensures
        avoids_param(b, p),
{
    assert forall|i: int, j: int|
        0 <= i < b.equation@.len() && 0 <= j < b.equation@[i].modifiers@.len() implies (
    #[trigger] b.equation@[i].modifiers@[j]).0 != p by {
        assert(layer_like(b.equation@[i], a.equation@[i]));
        assert(a.equation@[i].modifiers@[j].0 != p);
    }
}

/// A value dealt from a pack whose samples all come from a main buffer is
/// itself a value of the main buffer.
pub proof fn lemma_drawn_widen(p: Seq<u32>, m: Seq<u32>, v: u32)
    requires
        p.len() > 0,
        forall|t: int| 0 <= t < p.len() ==> drawn_from(m, #[trigger] p[t]),
        drawn_from(p, v),
    ensures
        drawn_from(m, v),
{
    let w = choose|w: int| 0 <= w < p.len() && p[w] == v;
    assert(drawn_from(m, p[w]));
}

proof fn lemma_fresh_weight_widen(v: u32, p: Seq<u32>, m: Seq<u32>)
    requires
        p.len() > 0,
        forall|t: int| 0 <= t < p.len() ==> drawn_from(m, #[trigger] p[t]),
        fresh_weight(v, p),
    ensures
        fresh_weight(v, m),
{
    if v != F_ONE && v != neg_of(F_ONE) {
        let t = choose|t: u32| #[trigger] drawn_from(p, t) && (v == t || v == neg_of(t));
        lemma_drawn_widen(p, m, t);
    }
}

proof fn lemma_fresh_offset_widen(v: u32, p: Seq<u32>, m: Seq<u32>)
    requires
        p.len() > 0,
        forall|t: int| 0 <= t < p.len() ==> drawn_from(m, #[trigger] p[t]),
        fresh_offset(v, p),
    ensures
        fresh_offset(v, m),
{
    if v != F_ZERO {
        let t = choose|t: u32| #[trigger] drawn_from(p, t) && v == sub_of(mul_of(t, F_TWO), F_TWO);
        lemma_drawn_widen(p, m, t);
    }
}

/// Freshness of a creature's numbers carries from a pack to the main
/// buffers the pack was dealt from.
pub proof fn lemma_values_fresh_widen(
    cr: Creature,
    pt: Seq<u32>,
    pg: Seq<u32>,
    mt: Seq<u32>,
    mg: Seq<u32>,
)
    requires
        pt.len() > 0,
        pg.len() > 0,
        forall|t: int| 0 <= t < pt.len() ==> drawn_from(mt, #[trigger] pt[t]),
        forall|t: int| 0 <= t < pg.len() ==> drawn_from(mg, #[trigger] pg[t]),
        creature_values_fresh(cr, pt, pg),
    ensures
        creature_values_fresh(cr, mt, mg),
{
    assert forall|i: int|
        0 <= i < cr.equation@.len() implies layer_values_fresh(
        #[trigger] cr.equation@[i],
        mt,
        mg,
    ) by {
        let l = cr.equation@[i];
        assert(layer_values_fresh(l, pt, pg));
        assert forall|j: int|
            0 <= j < l.modifiers@.len() implies term_values_fresh(
            (#[trigger] l.modifiers@[j]).1,
            mt,
        ) by {
            let cf = l.modifiers@[j].1;
            assert(term_values_fresh(cf, pt));
            lemma_fresh_weight_widen(cf.c, pt, mt);
            lemma_fresh_weight_widen(cf.b, pt, mt);
            lemma_fresh_offset_widen(cf.z, pt, mt);
        }
        match l.previous_layer_coefficients {
            Some(cf) => {
                lemma_fresh_weight_widen(cf.c, pt, mt);
                lemma_fresh_weight_widen(cf.b, pt, mt);
                lemma_fresh_offset_widen(cf.z, pt, mt);
            },
            None => {},
        }
        if l.layer_bias != F_ZERO {
            let g = choose|g: u32| #[trigger] drawn_from(pg, g) && l.layer_bias == mul_of(
                g,
                SD_BIAS,
            );
            lemma_drawn_widen(pg, mg, g);
        }
    }
}

/// Evaluation depends only on each layer's content: two layer stacks alike
/// layer for layer compute the same states.
pub proof fn lemma_calc_layers_like(
    eqs1: Seq<LayerModifiers>,
    eqs2: Seq<LayerModifiers>,
    row: Seq<(usize, u32)>,
    k: nat,
)
    requires
        eqs1.len() == eqs2.len(),
        forall|i: int| 0 <= i < eqs1.len() ==> layer_like(#[trigger] eqs1[i], #[trigger] eqs2[i]),
        k <= eqs1.len(),
    ensures
        calc_layers(eqs1, row, k) == calc_layers(eqs2, row, k),
    decreases k,
{
    if k > 0 {
        lemma_calc_layers_like(eqs1, eqs2, row, (k - 1) as nat);
        assert(layer_like(eqs1[k - 1], eqs2[k - 1]));
        assert(eqs1[k - 1].modifiers@ == eqs2[k - 1].modifiers@);
        assert(eqs1[k - 1].previous_layer_coefficients == eqs2[
            k - 1
        ].previous_layer_coefficients);
        assert(eqs1[k - 1].layer_bias == eqs2[k - 1].layer_bias);
    }
}

/// Two creatures holding the same content compute the same output on
/// every row.
pub proof fn lemma_calc_like(
    eqs1: Seq<LayerModifiers>,
    eqs2: Seq<LayerModifiers>,
    row: Seq<(usize, u32)>,
)
    requires
        eqs1.len() == eqs2.len(),
        forall|i: int| 0 <= i < eqs1.len() ==> layer_like(#[trigger] eqs1[i], #[trigger] eqs2[i]),
    ensures
        creature_calc(eqs1, row) == creature_calc(eqs2, row),
{
    lemma_calc_layers_like(eqs1, eqs2, row, eqs1.len());
}

/// Evaluation is pure: it has no side effects, and two results computed
/// from the same creature and the same input row are the same value.
pub proof fn lemma_calculate_deterministic(
    eqs: Seq<LayerModifiers>,
    row: Seq<(usize, u32)>,
    r1: u32,
    r2: u32,
)
    requires
        r1 == creature_calc(eqs, row),
        r2 == creature_calc(eqs, row),
    ensures
        r1 == r2,
{
}

/// Mutation preserves well-formedness: it never changes the layer count,
/// never changes which parameters a layer references, never drops or adds
/// a previous-layer term, and the exponent invariant survives because an
/// exponent only falls when it is above one.
pub proof fn lemma_mutation_preserves_wf(src: Creature, m: Creature)
    requires
        equation_wf(src.equation@),
        mutant_of(m, src),
    ensures
        equation_wf(m.equation@),
{
    assert forall|i: int| 0 <= i < m.equation@.len() implies layer_wf(
        #[trigger] m.equation@[i],
    ) by {
        assert(layer_mutated(src.equation@[i], m.equation@[i]));
        assert(layer_wf(src.equation@[i]));
        let a = src.equation@[i];
        let b = m.equation@[i];
        assert forall|j: int, k: int|
            0 <= j < k < b.modifiers@.len() implies (#[trigger] b.modifiers@[j]).0 != (
        #[trigger] b.modifiers@[k]).0 by {
            assert(a.modifiers@[j].0 != a.modifiers@[k].0);
        }
        assert forall|j: int| 0 <= j < b.modifiers@.len() implies coef_wf(
            (#[trigger] b.modifiers@[j]).1,
        ) by {
            assert(coef_mutated(a.modifiers@[j].1, b.modifiers@[j].1));
            assert(coef_wf(a.modifiers@[j].1));
        }
    }
    assert(layer_mutated(src.equation@[0], m.equation@[0]));
    assert forall|i: int|
        1 <= i < m.equation@.len() implies (#[trigger] m.equation@[i]).previous_layer_coefficients
        is Some by {
        assert(layer_mutated(src.equation@[i], m.equation@[i]));
        assert(src.equation@[i].previous_layer_coefficients is Some);
    }
}

/// Draw the number of layers of a fresh creature from the multiset
/// {1, 1, 1, 2, 2, 3}.
pub fn num_layers() -> (r: u8)
    ensures
        1 <= r <= 3,
{
    let slot = pick_below(6);
    if slot < 3 {
        1
    } else if slot < 5 {
        2
    } else {
        3
    }
}

impl Coefficients {
    /// Sample a fresh term: `c` is one with probability 2/5, else
    /// triangular on [0, 2]; `b` is one with probability 3/10, else the
    /// same triangular; `z` is zero with probability 2/5, else triangular
    /// on [-2, 2]; `c` and `b` are then each negated with probability 1/2;
    /// `x` is 1, 2 or 3 with probabilities 2/5, 7/20 and 1/4.
    pub fn new(draws: &mut Draws) -> (r: Coefficients)
        requires
            draws_wf(*old(draws)),
        ensures
            draws_wf(*final(draws)),
            final(draws).tri@ == old(draws).tri@,
            final(draws).gauss@ == old(draws).gauss@,
            coef_fresh(r),
            term_values_fresh(r, old(draws).tri@),
    {
        let c0 = if coin_ratio(2, 5) {
            F_ONE
        } else {
            draws.next_tri()
        };
        proof {
            assert(c0 == F_ONE || drawn_from(old(draws).tri@, c0));
        }
        let b0 = if coin_ratio(3, 10) {
            F_ONE
        } else {
            draws.next_tri()
        };
        proof {
            assert(b0 == F_ONE || drawn_from(old(draws).tri@, b0));
        }
        let z = if coin_ratio(2, 5) {
            F_ZERO
        } else {
            // The triangular on [-2, 2] peaked at 0 is the [0, 2] sample
            // rescaled: twice the sample, minus two.
            let t = draws.next_tri();
            let zz = sub_bits(mul_bits(t, F_TWO), F_TWO);
            proof {
                assert(drawn_from(old(draws).tri@, t) && zz == sub_of(mul_of(t, F_TWO), F_TWO));
            }
            zz
        };
        proof {
            assert(fresh_offset(z, old(draws).tri@));
        }
        let c = if coin_ratio(1, 2) {
            negate_bits(c0)
        } else {
            c0
        };
        let b = if coin_ratio(1, 2) {
            negate_bits(b0)
        } else {
            b0
        };
        proof {
            assert(fresh_weight(c, old(draws).tri@));
            assert(fresh_weight(b, old(draws).tri@));
        }
        let slot = pick_below(100);
        let x: u8 = if slot < 40 {
            1
        } else if slot < 75 {
            2
        } else {
            3
        };
        Coefficients { c, b, z, x }
    }

    /// The term's value at `value`.
    pub fn calculate(&self, value: u32) -> (r: u32)
        ensures
            r == coef_calc(*self, value),
    {
        let base = add_bits(mul_bits(self.b, value), self.z);
        let mut acc = base;
        let mut k: u8 = 1;
        while k < self.x
            invariant
                1 <= k,
                self.x <= 1 ==> k == 1,
                self.x > 1 ==> k <= self.x,
                acc == pow_of(base, k as nat),
            decreases self.x - k,
        {
            acc = mul_bits(acc, base);
            k = k + 1;
        }
        mul_bits(self.c, acc)
    }
}

impl Clone for LayerModifiers {
    /// A deep copy whose fields are the same values.
    fn clone(&self) -> (r: Self)
        ensures
            r.modifiers@ == self.modifiers@,
            r.previous_layer_coefficients == self.previous_layer_coefficients,
            r.layer_bias == self.layer_bias,
    {
        let mut mods: Vec<(usize, Coefficients)> = Vec::new();
        let mut i: usize = 0;
        while i < self.modifiers.len()
            invariant
                i <= self.modifiers@.len(),
                mods@ == self.modifiers@.subrange(0, i as int),
            decreases self.modifiers@.len() - i,
        {
            mods.push(self.modifiers[i]);
            assert(mods@ =~= self.modifiers@.subrange(0, i + 1));
            i = i + 1;
        }
        assert(mods@ =~= self.modifiers@);
        LayerModifiers {
            modifiers: mods,
            previous_layer_coefficients: self.previous_layer_coefficients,
            layer_bias: self.layer_bias,
        }
    }
}

impl LayerModifiers {
    /// Sample a fresh layer over the candidate parameters: each parameter
    /// is referenced with probability 5 / (2 (N + 1)) where N is the
    /// candidate count (always referenced when that ratio reaches one); a
    /// previous-layer term is present unless this is the first layer; the
    /// bias is zero with probability 1/5, else Gaussian with spread
    /// one tenth.
    pub fn new(first_layer: bool, parameter_options: &Vec<usize>, draws: &mut Draws) -> (r:
        LayerModifiers)
        requires
            draws_wf(*old(draws)),
            opts_ok(parameter_options@),
        ensures
            draws_wf(*final(draws)),
            final(draws).tri@ == old(draws).tri@,
            final(draws).gauss@ == old(draws).gauss@,
            layer_wf(r),
            layer_fresh(r),
            layer_values_fresh(r, old(draws).tri@, old(draws).gauss@),
            r.previous_layer_coefficients is Some <==> !first_layer,
            forall|j: int|
                0 <= j < r.modifiers@.len() ==> parameter_options@.contains(
                    (#[trigger] r.modifiers@[j]).0,
                ),
    {
        let n = parameter_options.len();
        // Inclusion ratio 5 / (2 (N + 1)), clamped to one.
        let den: u32 = 2 * ((n as u32) + 1);
        let mut mods: Vec<(usize, Coefficients)> = Vec::new();
        let ghost mut poss: Seq<int> = Seq::empty();
        let mut i: usize = 0;
        while i < parameter_options.len()
            invariant
                draws_wf(*draws),
                draws.tri@ == old(draws).tri@,
                draws.gauss@ == old(draws).gauss@,
                i <= parameter_options@.len(),
                opts_ok(parameter_options@),
                forall|j: int|
                    0 <= j < mods@.len() ==> parameter_options@.contains(
                        (#[trigger] mods@[j]).0,
                    ),
                forall|j: int| 0 <= j < mods@.len() ==> coef_fresh((#[trigger] mods@[j]).1),
                forall|j: int|
                    0 <= j < mods@.len() ==> term_values_fresh(
                        (#[trigger] mods@[j]).1,
                        old(draws).tri@,
                    ),
                // Each kept entry remembers the scan position it came from,
                // in scan order, so distinctness of the options carries
                // over to the kept indices.
                mods@.len() == poss.len(),
                forall|j: int| 0 <= j < poss.len() ==> 0 <= #[trigger] poss[j] < i,
                forall|j: int, k: int| 0 <= j < k < poss.len() ==> poss[j] < poss[k],
                forall|j: int|
                    0 <= j < poss.len() ==> (#[trigger] mods@[j]).0 == parameter_options@[poss[j]],
            decreases parameter_options@.len() - i,
        {
            let keep = if 5 >= den {
                true
            } else {
                coin_ratio(5, den)
            };
            if keep {
                let cf = Coefficients::new(draws);
                mods.push((parameter_options[i], cf));
                proof {
                    poss = poss.push(i as int);
                }
            }
            i = i + 1;
        }
        proof {
            assert forall|j: int, k: int|
                0 <= j < k < mods@.len() implies (#[trigger] mods@[j]).0 != (
            #[trigger] mods@[k]).0 by {
                assert(parameter_options@[poss[j]] != parameter_options@[poss[k]]);
            }
            assert forall|j: int|
                0 <= j < mods@.len() implies parameter_options@.contains(
                (#[trigger] mods@[j]).0,
            ) by {
                assert(parameter_options@[poss[j]] == mods@[j].0);
            }
        }
        let previous_layer_coefficients = if first_layer {
            None
        } else {
            Some(Coefficients::new(draws))
        };
        let layer_bias = if coin_ratio(1, 5) {
            F_ZERO
        } else {
            let g = draws.next_gauss();
            let bb = mul_bits(g, SD_BIAS);
            proof {
                assert(drawn_from(old(draws).gauss@, g) && bb == mul_of(g, SD_BIAS));
            }
            bb
        };
        LayerModifiers { modifiers: mods, previous_layer_coefficients, layer_bias }
    }
}

/// Find the first term keyed `p` in a layer's modifier list.
fn lookup_mod(mods: &Vec<(usize, Coefficients)>, p: usize) -> (r: Option<Coefficients>)
    ensures
        r == mods_lookup(mods@, p),
{
    let mut i: usize = 0;
    proof {
        assert(mods@.skip(0) =~= mods@);
    }
    while i < mods.len()
        invariant
            i <= mods@.len(),
            mods_lookup(mods@, p) == mods_lookup(mods@.skip(i as int), p),
        decreases mods@.len() - i,
    {
        proof {
            assert(mods@.skip(i as int)[0] == mods@[i as int]);
            assert(mods@.skip(i as int).drop_first() =~= mods@.skip(i as int + 1));
        }
        if mods[i].0 == p {
            return Some(mods[i].1);
        }
        i = i + 1;
    }
    proof {
        assert(mods@.skip(i as int).len() == 0);
    }
    None
}

impl Creature {
    /// Build a fresh creature: the layer count is drawn from the multiset
    /// {1, 1, 1, 2, 2, 3} and capped at `max_layers`; the first layer has
    /// no previous-layer term and every later layer has one.
    pub fn new(parameter_options: &Vec<usize>, max_layers: u8, draws: &mut Draws) -> (r: Creature)
        requires
            draws_wf(*old(draws)),
            opts_ok(parameter_options@),
            max_layers >= 1,
        ensures
            draws_wf(*final(draws)),
            final(draws).tri@ == old(draws).tri@,
            final(draws).gauss@ == old(draws).gauss@,
            fresh_creature_ok(r, parameter_options@, max_layers),
            creature_values_fresh(r, old(draws).tri@, old(draws).gauss@),
    {
        let mut layer_limit = num_layers();
        if layer_limit > max_layers {
            layer_limit = max_layers;
        }
        let mut equation: Vec<LayerModifiers> = Vec::new();
        let mut layer: u8 = 0;
        while layer < layer_limit
            invariant
                draws_wf(*draws),
                draws.tri@ == old(draws).tri@,
                draws.gauss@ == old(draws).gauss@,
                opts_ok(parameter_options@),
                layer <= layer_limit,
                equation@.len() == layer,
                layer >= 1 ==> equation@[0].previous_layer_coefficients is None,
                forall|i: int|
                    1 <= i < layer ==> (#[trigger] equation@[i]).previous_layer_coefficients
                        is Some,
                forall|i: int| 0 <= i < layer ==> layer_wf(#[trigger] equation@[i]),
                forall|i: int| 0 <= i < layer ==> layer_fresh(#[trigger] equation@[i]),
                forall|i: int|
                    0 <= i < layer ==> layer_values_fresh(
                        #[trigger] equation@[i],
                        old(draws).tri@,
                        old(draws).gauss@,
                    ),
                forall|i: int, j: int|
                    0 <= i < layer && 0 <= j < equation@[i].modifiers@.len()
                        ==> parameter_options@.contains(
                        (#[trigger] equation@[i].modifiers@[j]).0,
                    ),
            decreases layer_limit - layer,
        {
            let lm = LayerModifiers::new(layer == 0, parameter_options, draws);
            let ghost eq0 = equation@;
            equation.push(lm);
            proof {
                assert forall|i: int, j: int|
                    0 <= i < equation@.len() && 0 <= j
                        < equation@[i].modifiers@.len() implies parameter_options@.contains(
                    (#[trigger] equation@[i].modifiers@[j]).0,
                ) by {
                    if i < eq0.len() {
                        assert(equation@[i] == eq0[i]);
                        assert(parameter_options@.contains(eq0[i].modifiers@[j].0));
                    } else {
                        assert(parameter_options@.contains(lm.modifiers@[j].0));
                    }
                }
            }
            layer = layer + 1;
        }
        Creature { equation, cached_error_sum: None, generation: 1 }
    }

    /// The number of layers of this creature.
    pub fn num_layers(&self) -> (r: usize)
        ensures
            r == self.equation@.len(),
    {
        self.equation.len()
    }

    /// The creature's output for one row of input values, as given by
    /// `creature_calc`: layers run in order; each layer sums, from zero,
    /// the terms of the row entries it references, adds the weighted
    /// previous-layer output if it carries that term, and emits that sum
    /// plus its bias, which feeds the next layer.  Row entries no layer
    /// references are ignored; parameters a layer references but the row
    /// lacks contribute nothing.  A pure function of the creature and the
    /// row.
    pub fn calculate(&self, parameters: &Vec<(usize, u32)>) -> (r: u32)
        ensures
            r == creature_calc(self.equation@, parameters@),
    {
        let mut total = F_ZERO;
        let mut li: usize = 0;
        while li < self.equation.len()
            invariant
                li <= self.equation@.len(),
                total == calc_layers(self.equation@, parameters@, li as nat),
            decreases self.equation@.len() - li,
        {
            let ghost total0 = total;
            let l = &self.equation[li];
            let mut inner = F_ZERO;
            let mut pi: usize = 0;
            while pi < parameters.len()
                invariant
                    pi <= parameters@.len(),
                    l == &self.equation@[li as int],
                    li < self.equation@.len(),
                    inner == inner_after(l.modifiers@, parameters@, pi as nat),
                decreases parameters@.len() - pi,
            {
                let (p, value) = parameters[pi];
                match lookup_mod(&l.modifiers, p) {
                    Some(cf) => {
                        inner = add_bits(inner, cf.calculate(value));
                    },
                    None => {},
                }
                pi = pi + 1;
            }
            match &l.previous_layer_coefficients {
                Some(cf) => {
                    inner = add_bits(inner, cf.calculate(total));
                },
                None => {},
            }
            total = add_bits(inner, l.layer_bias);
            proof {
                assert(total == layer_step(self.equation@[li as int], parameters@, total0));
            }
            li = li + 1;
        }
        total
    }

    /// Produce a mutated copy: same shape — same layers, same referenced
    /// parameters, the previous-layer term on the same layers — the
    /// generation one higher and the cache cleared.  Each weight becomes
    /// the parent's value plus a Gaussian sample scaled by the speed's
    /// spread, each bias is copied or shifted the same way, and each
    /// exponent moves by at most one, never below one.
    pub fn mutate(&self, mutate_speed: MutateSpeed, draws: &mut Draws) -> (r: Creature)
        requires
            draws_wf(*old(draws)),
            self.generation < u32::MAX,
        ensures
            draws_wf(*final(draws)),
            final(draws).tri@ == old(draws).tri@,
            final(draws).gauss@ == old(draws).gauss@,
            mutant_of(r, *self),
            creature_perturbed(*self, r, speed_sd(mutate_speed), old(draws).gauss@),
    {
        let modify_value = match mutate_speed {
            MutateSpeed::Fine => SD_FINE,
            MutateSpeed::Fast => SD_FAST,
        };
        proof {
            assert(modify_value == speed_sd(mutate_speed));
        }
        let mut new_equation: Vec<LayerModifiers> = Vec::new();
        let mut li: usize = 0;
        while li < self.equation.len()
            invariant
                draws_wf(*draws),
                draws.tri@ == old(draws).tri@,
                draws.gauss@ == old(draws).gauss@,
                li <= self.equation@.len(),
                new_equation@.len() == li,
                forall|i: int|
                    0 <= i < li ==> layer_mutated(
                        #[trigger] self.equation@[i],
                        #[trigger] new_equation@[i],
                    ),
                forall|i: int|
                    0 <= i < li ==> layer_perturbed(
                        #[trigger] self.equation@[i],
                        #[trigger] new_equation@[i],
                        speed_sd(mutate_speed),
                        old(draws).gauss@,
                    ),
                modify_value == speed_sd(mutate_speed),
            decreases self.equation@.len() - li,
        {
            let l = &self.equation[li];
            // With probability 1/2 the bias receives Gaussian noise, else it
            // is copied unchanged.
            let layer_bias = if coin_ratio(1, 2) {
                let g = draws.next_gauss();
                let bb = add_bits(l.layer_bias, mul_bits(g, modify_value));
                proof {
                    assert(drawn_from(old(draws).gauss@, g) && bb == add_of(
                        l.layer_bias,
                        mul_of(g, modify_value),
                    ));
                }
                bb
            } else {
                l.layer_bias
            };
            let previous_layer_coefficients = match &l.previous_layer_coefficients {
                Some(cf) => Some(perturb_coefficients(*cf, modify_value, draws)),
                None => None,
            };
            let mut mods: Vec<(usize, Coefficients)> = Vec::new();
            let mut j: usize = 0;
            while j < l.modifiers.len()
                invariant
                    draws_wf(*draws),
                    draws.tri@ == old(draws).tri@,
                    draws.gauss@ == old(draws).gauss@,
                    li < self.equation@.len(),
                    l == &self.equation@[li as int],
                    j <= l.modifiers@.len(),
                    mods@.len() == j,
                    forall|k: int|
                        0 <= k < j ==> (#[trigger] mods@[k]).0 == l.modifiers@[k].0,
                    forall|k: int|
                        0 <= k < j ==> coef_mutated(
                            l.modifiers@[k].1,
                            (#[trigger] mods@[k]).1,
                        ),
                    forall|k: int|
                        0 <= k < j ==> coef_perturbed(
                            l.modifiers@[k].1,
                            (#[trigger] mods@[k]).1,
                            speed_sd(mutate_speed),
                            old(draws).gauss@,
                        ),
                    modify_value == speed_sd(mutate_speed),
                decreases l.modifiers@.len() - j,
            {
                let (p, cf) = l.modifiers[j];
                let nf = perturb_coefficients(cf, modify_value, draws);
                mods.push((p, nf));
                j = j + 1;
            }
            new_equation.push(LayerModifiers {
                modifiers: mods,
                previous_layer_coefficients,
                layer_bias,
            });
            li = li + 1;
        }
        Creature {
            equation: new_equation,
            cached_error_sum: None,
            generation: self.generation + 1,
        }
    }

    /// Build `num_creatures` independent fresh creatures, one after the
    /// other.
    pub fn create_many(
        num_creatures: u32,
        parameter_options: &Vec<usize>,
        max_layers: u8,
        draws: &mut Draws,
    ) -> (r: Vec<Creature>)
        requires
            draws_wf(*old(draws)),
            opts_ok(parameter_options@),
            max_layers >= 1,
        ensures
            draws_wf(*final(draws)),
            final(draws).tri@ == old(draws).tri@,
            final(draws).gauss@ == old(draws).gauss@,
            r@.len() == num_creatures,
            forall|i: int|
                0 <= i < r@.len() ==> fresh_creature_ok(
                    #[trigger] r@[i],
                    parameter_options@,
                    max_layers,
                ),
            forall|i: int|
                0 <= i < r@.len() ==> creature_values_fresh(
                    #[trigger] r@[i],
                    old(draws).tri@,
                    old(draws).gauss@,
                ),
    {
        let mut creatures: Vec<Creature> = Vec::new();
        let mut i: u32 = 0;
        while i < num_creatures
            invariant
                draws_wf(*draws),
                draws.tri@ == old(draws).tri@,
                draws.gauss@ == old(draws).gauss@,
                opts_ok(parameter_options@),
                max_layers >= 1,
                i <= num_creatures,
                creatures@.len() == i,
                forall|j: int|
                    0 <= j < i ==> fresh_creature_ok(
                        #[trigger] creatures@[j],
                        parameter_options@,
                        max_layers,
                    ),
                forall|j: int|
                    0 <= j < i ==> creature_values_fresh(
                        #[trigger] creatures@[j],
                        old(draws).tri@,
                        old(draws).gauss@,
                    ),
            decreases num_creatures - i,
        {
            let cr = Creature::new(parameter_options, max_layers, draws);
            creatures.push(cr);
            i = i + 1;
        }
        creatures
    }

    /// Build `num_creatures` independent fresh creatures on worker
    /// threads.  The value draws are split into one pack per creature
    /// beforehand, so no task shares a mutable source with another.
    pub fn create_many_parallel(
        num_creatures: u32,
        parameter_options: &Vec<usize>,
        max_layers: u8,
        draws: &mut Draws,
    ) -> (r: Vec<Creature>)
        requires
            draws_wf(*old(draws)),
            opts_ok(parameter_options@),
            max_layers >= 1,
        ensures
            draws_wf(*final(draws)),
            final(draws).tri@ == old(draws).tri@,
            final(draws).gauss@ == old(draws).gauss@,
            r@.len() == num_creatures,
            forall|i: int|
                0 <= i < r@.len() ==> fresh_creature_ok(
                    #[trigger] r@[i],
                    parameter_options@,
                    max_layers,
                ),
            forall|i: int|
                0 <= i < r@.len() ==> creature_values_fresh(
                    #[trigger] r@[i],
                    old(draws).tri@,
                    old(draws).gauss@,
                ),
    {
        // Worst case per creature: up to three layers, each with a term
        // per candidate parameter plus the carry-over term and up to three
        // triangular draws per term; one Gaussian bias draw per layer.
        let n_tri: usize = 3 * (parameter_options.len() + 1) * 3;
        let n_gauss: usize = 3;
        let mut packs: Vec<Draws> = Vec::new();
        let mut i: u32 = 0;
        while i < num_creatures
            invariant
                draws_wf(*draws),
                draws.tri@ == old(draws).tri@,
                draws.gauss@ == old(draws).gauss@,
                n_tri >= 1,
                n_gauss >= 1,
                i <= num_creatures,
                packs@.len() == i,
                forall|j: int| 0 <= j < i ==> draws_wf(#[trigger] packs@[j]),
                forall|j: int|
                    0 <= j < i ==> (#[trigger] packs@[j]).tri@.len() == n_tri
                        && packs@[j].gauss@.len() == n_gauss,
                forall|j: int, t: int|
                    0 <= j < i && 0 <= t < n_tri ==> drawn_from(
                        old(draws).tri@,
                        (#[trigger] packs@[j].tri@[t]),
                    ),
                forall|j: int, t: int|
                    0 <= j < i && 0 <= t < n_gauss ==> drawn_from(
                        old(draws).gauss@,
                        (#[trigger] packs@[j].gauss@[t]),
                    ),
            decreases num_creatures - i,
        {
            let p = draws.take_pack(n_tri, n_gauss);
            packs.push(p);
            i = i + 1;
        }
        let ghost packs_view = packs@;
        let r = build_parallel(parameter_options, max_layers, packs);
        proof {
            assert forall|i2: int|
                0 <= i2 < r@.len() implies creature_values_fresh(
                #[trigger] r@[i2],
                old(draws).tri@,
                old(draws).gauss@,
            ) by {
                lemma_values_fresh_widen(
                    r@[i2],
                    packs_view[i2].tri@,
                    packs_view[i2].gauss@,
                    old(draws).tri@,
                    old(draws).gauss@,
                );
            }
        }
        r
    }
}

/// Perturb one term: `c`, `b` and `z` each receive independent Gaussian
/// noise scaled by `modify_value`; the exponent moves up with probability
/// 1/5, down with probability 1/5 when above one, else stays.
fn perturb_coefficients(cf: Coefficients, modify_value: u32, draws: &mut Draws) -> (r:
    Coefficients)
    requires
        draws_wf(*old(draws)),
    ensures
        draws_wf(*final(draws)),
        final(draws).tri@ == old(draws).tri@,
        final(draws).gauss@ == old(draws).gauss@,
        coef_mutated(cf, r),
        coef_perturbed(cf, r, modify_value, old(draws).gauss@),
{
    let gc = draws.next_gauss();
    let gb = draws.next_gauss();
    let gz = draws.next_gauss();
    proof {
        assert(drawn_from(old(draws).gauss@, gc));
        assert(drawn_from(old(draws).gauss@, gb));
        assert(drawn_from(old(draws).gauss@, gz));
    }
    let slot = pick_below(10);
    let x: u8 = if slot < 2 {
        if cf.x < 255 {
            cf.x + 1
        } else {
            cf.x
        }
    } else if slot < 4 && cf.x > 1 {
        cf.x - 1
    } else {
        cf.x
    };
    Coefficients {
        c: add_bits(cf.c, mul_bits(gc, modify_value)),
        b: add_bits(cf.b, mul_bits(gb, modify_value)),
        z: add_bits(cf.z, mul_bits(gz, modify_value)),
        x,
    }
}

/// Relies on rayon (into_par_iter, map, collect): runs the verified
/// constructor once per pack on worker threads and collects one creature
/// per pack, in pack order.  Each pack moves into its own task, and the
/// thread-local integer generator serves each worker independently.
#[verifier::external_body]
fn build_parallel(parameter_options: &Vec<usize>, max_layers: u8, packs: Vec<Draws>) -> (r: Vec<
    Creature>)
    requires
        opts_ok(parameter_options@),
        max_layers >= 1,
        forall|i: int| 0 <= i < packs@.len() ==> draws_wf(#[trigger] packs@[i]),
    ensures
        r@.len() == packs@.len(),
        forall|i: int|
            0 <= i < r@.len() ==> fresh_creature_ok(
                #[trigger] r@[i],
                parameter_options@,
                max_layers,
            ),
        forall|i: int|
            0 <= i < r@.len() ==> creature_values_fresh(
                #[trigger] r@[i],
                packs@[i].tri@,
                packs@[i].gauss@,
            ),
{
    packs
        .into_par_iter()
        .map(|mut pack| Creature::new(parameter_options, max_layers, &mut pack))
        .collect()
}

impl Clone for Creature {
    /// A deep copy holding the same content.
    fn clone(&self) -> (r: Self)
        ensures
            creature_like(r, *self),
    {
        let mut eqs: Vec<LayerModifiers> = Vec::new();
        let mut i: usize = 0;
        while i < self.equation.len()
            invariant
                i <= self.equation@.len(),
                eqs@.len() == i,
                forall|j: int|
                    0 <= j < i ==> layer_like(#[trigger] eqs@[j], self.equation@[j]),
            decreases self.equation@.len() - i,
        {
            let l = self.equation[i].clone();
            eqs.push(l);
            i = i + 1;
        }
        Creature {
            equation: eqs,
            cached_error_sum: self.cached_error_sum,
            generation: self.generation,
        }
    }
}

} // verus!

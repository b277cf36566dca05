//! Sources of randomness.
//!
//! Structural decisions (how many layers, which parameters a layer uses,
//! exponent moves, sign flips) need only integer randomness and are drawn
//! here through trusted wrappers over the `rand` crate.
//!
//! Value draws (triangular-distributed coefficients, Gaussian noise) are
//! continuous distributions that this crate cannot sample itself: the
//! caller supplies them as buffers of binary32 bit patterns, from which a
//! `Draws` value deals them out, cycling when a buffer is exhausted.  A
//! `Draws` with empty buffers deals the zero pattern.

use vstd::prelude::*;
use vstd::arithmetic::div_mod::{
    lemma_add_mod_noop, lemma_mod_division_less_than_divisor, lemma_mod_self_0, lemma_small_mod,
};
use crate::numeric::F_ZERO;

verus! {

/// Relies on rand::random_ratio: true with probability `num / den`, from the
/// thread-local generator.  It panics unless `0 < den` and `num <= den`, so
/// those are required.  Nothing is promised of the outcome.
#[verifier::external_body]
pub(crate) fn coin_ratio(num: u32, den: u32) -> bool
    requires
        0 < den,
        num <= den,
{
    rand::random_ratio(num, den)
}

/// Relies on rand::random_range over `0..n`: a uniform value below `n`, from
/// the thread-local generator.  It panics on an empty range, so `n` must be
/// positive.
#[verifier::external_body]
pub(crate) fn pick_below(n: u32) -> (r: u32)
    requires
        0 < n,
    ensures
        r < n,
{
    rand::random_range(0..n)
}

/// Caller-supplied buffers of value draws: `tri` holds samples of the
/// triangular distribution on [0, 2] peaked at 1, `gauss` holds samples of
/// the standard Gaussian, both as binary32 bit patterns.
pub struct Draws {
    pub tri: Vec<u32>,
    pub gauss: Vec<u32>,
    pub tri_pos: usize,
    pub gauss_pos: usize,
}

/// A `Draws` is well formed when each cursor sits inside its buffer, or the
/// buffer is empty and the cursor is zero.
pub open spec fn draws_wf(d: Draws) -> bool {
    &&& (d.tri@.len() == 0 ==> d.tri_pos == 0)
    &&& (d.tri@.len() > 0 ==> d.tri_pos < d.tri@.len())
    &&& (d.gauss@.len() == 0 ==> d.gauss_pos == 0)
    &&& (d.gauss@.len() > 0 ==> d.gauss_pos < d.gauss@.len())
}

/// What one dealt value can be: the zero pattern when the buffer is empty,
/// else one of the buffer's samples.
pub open spec fn drawn_from(buf: Seq<u32>, v: u32) -> bool {
    if buf.len() == 0 {
        v == F_ZERO
    } else {
        buf.contains(v)
    }
}

/// The cursor after `k` cyclic steps from `pos` in a buffer of length
/// `len`.
pub open spec fn cyc_pos(len: int, pos: int, k: int) -> int {
    if len == 0 {
        0
    } else {
        (pos + k) % len
    }
}

/// The value dealt at the `k`-th cyclic step from `pos`.
pub open spec fn cyc_at(s: Seq<u32>, pos: int, k: int) -> u32 {
    if s.len() == 0 {
        F_ZERO
    } else {
        s[(pos + k) % (s.len() as int)]
    }
}

/// One cyclic cursor step agrees with the modular form.
proof fn lemma_cyc_step(len: int, base: int, k: int, p: int)
    requires
        len >= 1,
        0 <= base,
        0 <= k,
        p == (base + k) % len,
    ensures
        (if p + 1 == len {
            0int
        } else {
            p + 1
        }) == (base + k + 1) % len,
{
    lemma_add_mod_noop(base + k, 1, len);
    lemma_mod_division_less_than_divisor(base + k, len);
    if len == 1 {
        lemma_mod_division_less_than_divisor(base + k + 1, len);
    } else {
        lemma_small_mod(1 as nat, len as nat);
        if p + 1 == len {
            lemma_mod_self_0(len);
        } else {
            lemma_small_mod((p + 1) as nat, len as nat);
        }
    }
}

impl Draws {
    /// Wrap two sample buffers, with both cursors at the start.
    pub fn new(tri: Vec<u32>, gauss: Vec<u32>) -> (d: Draws)
        ensures
            draws_wf(d),
            d.tri@ == tri@,
            d.gauss@ == gauss@,
            d.tri_pos == 0,
            d.gauss_pos == 0,
    {
        Draws { tri, gauss, tri_pos: 0, gauss_pos: 0 }
    }

    /// Deal the next triangular sample, advancing the cursor cyclically.
    pub fn next_tri(&mut self) -> (r: u32)
        requires
            draws_wf(*old(self)),
        ensures
            draws_wf(*final(self)),
            final(self).tri@ == old(self).tri@,
            final(self).gauss@ == old(self).gauss@,
            final(self).gauss_pos == old(self).gauss_pos,
            final(self).tri_pos as int == cyc_pos(
                old(self).tri@.len() as int,
                old(self).tri_pos as int,
                1,
            ),
            r == cyc_at(old(self).tri@, old(self).tri_pos as int, 0),
            drawn_from(old(self).tri@, r),
    {
        if self.tri.len() == 0 {
            F_ZERO
        } else {
            let v = self.tri[self.tri_pos];
            proof {
                let len = self.tri@.len() as int;
                lemma_small_mod(self.tri_pos as nat, len as nat);
                lemma_cyc_step(len, self.tri_pos as int, 0, self.tri_pos as int);
                assert(self.tri@.contains(self.tri@[self.tri_pos as int]));
            }
            self.tri_pos = if self.tri_pos + 1 == self.tri.len() {
                0
            } else {
                self.tri_pos + 1
            };
            v
        }
    }

    /// Deal the next standard-Gaussian sample, advancing the cursor
    /// cyclically.
    pub fn next_gauss(&mut self) -> (r: u32)
        requires
            draws_wf(*old(self)),
        ensures
            draws_wf(*final(self)),
            final(self).tri@ == old(self).tri@,
            final(self).gauss@ == old(self).gauss@,
            final(self).tri_pos == old(self).tri_pos,
            final(self).gauss_pos as int == cyc_pos(
                old(self).gauss@.len() as int,
                old(self).gauss_pos as int,
                1,
            ),
            r == cyc_at(old(self).gauss@, old(self).gauss_pos as int, 0),
            drawn_from(old(self).gauss@, r),
    {
        if self.gauss.len() == 0 {
            F_ZERO
        } else {
            let v = self.gauss[self.gauss_pos];
            proof {
                let len = self.gauss@.len() as int;
                lemma_small_mod(self.gauss_pos as nat, len as nat);
                lemma_cyc_step(len, self.gauss_pos as int, 0, self.gauss_pos as int);
                assert(self.gauss@.contains(self.gauss@[self.gauss_pos as int]));
            }
            self.gauss_pos = if self.gauss_pos + 1 == self.gauss.len() {
                0
            } else {
                self.gauss_pos + 1
            };
            v
        }
    }

    /// Split off a pack of `n_tri` triangular and `n_gauss` Gaussian
    /// samples for use by one independent task: exactly the next `n_tri`
    /// and `n_gauss` cyclic deals, in order.
    pub fn take_pack(&mut self, n_tri: usize, n_gauss: usize) -> (p: Draws)
        requires
            draws_wf(*old(self)),
        ensures
            draws_wf(*final(self)),
            draws_wf(p),
            final(self).tri@ == old(self).tri@,
            final(self).gauss@ == old(self).gauss@,
            final(self).tri_pos as int == cyc_pos(
                old(self).tri@.len() as int,
                old(self).tri_pos as int,
                n_tri as int,
            ),
            final(self).gauss_pos as int == cyc_pos(
                old(self).gauss@.len() as int,
                old(self).gauss_pos as int,
                n_gauss as int,
            ),
            p.tri@.len() == n_tri,
            p.gauss@.len() == n_gauss,
            forall|t: int|
                0 <= t < n_tri ==> p.tri@[t] == cyc_at(
                    old(self).tri@,
                    old(self).tri_pos as int,
                    t,
                ),
            forall|t: int|
                0 <= t < n_gauss ==> p.gauss@[t] == cyc_at(
                    old(self).gauss@,
                    old(self).gauss_pos as int,
                    t,
                ),
            forall|t: int| 0 <= t < n_tri ==> drawn_from(old(self).tri@, #[trigger] p.tri@[t]),
            forall|t: int|
                0 <= t < n_gauss ==> drawn_from(old(self).gauss@, #[trigger] p.gauss@[t]),
    {
        let mut tri: Vec<u32> = Vec::new();
        let mut i: usize = 0;
        proof {
            if old(self).tri@.len() > 0 {
                lemma_small_mod(old(self).tri_pos as nat, old(self).tri@.len());
            }
        }
        while i < n_tri
            invariant
                draws_wf(*self),
                self.tri@ == old(self).tri@,
                self.gauss@ == old(self).gauss@,
                self.gauss_pos == old(self).gauss_pos,
                self.tri_pos as int == cyc_pos(
                    old(self).tri@.len() as int,
                    old(self).tri_pos as int,
                    i as int,
                ),
                i <= n_tri,
                tri@.len() == i,
                forall|t: int|
                    0 <= t < i ==> tri@[t] == cyc_at(
                        old(self).tri@,
                        old(self).tri_pos as int,
                        t,
                    ),
            decreases n_tri - i,
        {
            let ghost pre_pos = self.tri_pos as int;
            let v = self.next_tri();
            proof {
                let len = old(self).tri@.len() as int;
                if len > 0 {
                    lemma_small_mod(pre_pos as nat, len as nat);
                    lemma_mod_division_less_than_divisor(old(self).tri_pos + i, len);
                    if pre_pos + 1 == len {
                        lemma_mod_self_0(len);
                    } else {
                        lemma_small_mod((pre_pos + 1) as nat, len as nat);
                    }
                    lemma_cyc_step(len, old(self).tri_pos as int, i as int, pre_pos);
                }
            }
            tri.push(v);
            i = i + 1;
        }
        let mut gauss: Vec<u32> = Vec::new();
        let mut j: usize = 0;
        proof {
            if old(self).gauss@.len() > 0 {
                lemma_small_mod(old(self).gauss_pos as nat, old(self).gauss@.len());
            }
        }
        while j < n_gauss
            invariant
                draws_wf(*self),
                self.tri@ == old(self).tri@,
                self.gauss@ == old(self).gauss@,
                self.tri_pos as int == cyc_pos(
                    old(self).tri@.len() as int,
                    old(self).tri_pos as int,
                    n_tri as int,
                ),
                self.gauss_pos as int == cyc_pos(
                    old(self).gauss@.len() as int,
                    old(self).gauss_pos as int,
                    j as int,
                ),
                j <= n_gauss,
                tri@.len() == n_tri,
                gauss@.len() == j,
                forall|t: int|
                    0 <= t < j ==> gauss@[t] == cyc_at(
                        old(self).gauss@,
                        old(self).gauss_pos as int,
                        t,
                    ),
            decreases n_gauss - j,
        {
            let ghost pre_pos = self.gauss_pos as int;
            let v = self.next_gauss();
            proof {
                let len = old(self).gauss@.len() as int;
                if len > 0 {
                    lemma_small_mod(pre_pos as nat, len as nat);
                    lemma_mod_division_less_than_divisor(old(self).gauss_pos + j, len);
                    if pre_pos + 1 == len {
                        lemma_mod_self_0(len);
                    } else {
                        lemma_small_mod((pre_pos + 1) as nat, len as nat);
                    }
                    lemma_cyc_step(len, old(self).gauss_pos as int, j as int, pre_pos);
                }
            }
            gauss.push(v);
            j = j + 1;
        }
        proof {
            assert forall|t: int| 0 <= t < n_tri implies drawn_from(
                old(self).tri@,
                #[trigger] tri@[t],
            ) by {
                lemma_cyc_drawn(old(self).tri@, old(self).tri_pos as int, t);
            }
            assert forall|t: int| 0 <= t < n_gauss implies drawn_from(
                old(self).gauss@,
                #[trigger] gauss@[t],
            ) by {
                lemma_cyc_drawn(old(self).gauss@, old(self).gauss_pos as int, t);
            }
        }
        Draws { tri, gauss, tri_pos: 0, gauss_pos: 0 }
    }
}

/// A cyclic deal is one of the buffer's samples, or the zero pattern from
/// an empty buffer.
pub proof fn lemma_cyc_drawn(s: Seq<u32>, pos: int, t: int)
    requires
        0 <= pos,
        0 <= t,
    ensures
        drawn_from(s, cyc_at(s, pos, t)),
{
    if s.len() > 0 {
        lemma_mod_division_less_than_divisor(pos + t, s.len() as int);
        assert(s.contains(s[(pos + t) % (s.len() as int)]));
    }
}

} // verus!

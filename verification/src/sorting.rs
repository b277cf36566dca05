//! Verified merge sort of binary32 patterns under the IEEE total order.
//!
//! Ranking a population sorts the cached error patterns.  The order is the
//! total-order key of `numeric`: unsigned comparison of keys is exactly
//! the IEEE totalOrder predicate on the encoded values.

use vstd::prelude::*;
use vstd::multiset::Multiset;
use vstd::relations::sorted_by;
use vstd::seq_lib::group_to_multiset_ensures;
use vstd::seq_lib::lemma_multiset_commutative;
use crate::numeric::{key_le, le_key_bits};

verus! {

/// The comparison the sort uses, as a single spec value so that every
/// mention of sortedness speaks of the same relation.
pub open spec fn by_key() -> spec_fn(u32, u32) -> bool {
    |a: u32, b: u32| key_le(a, b)
}

/// The sort's comparison is a total ordering: key order inherits
/// reflexivity, transitivity and totality from unsigned comparison, and
/// antisymmetry from the key's injectivity.
pub proof fn lemma_by_key_total_ordering()
    ensures
        vstd::relations::total_ordering(by_key()),
{
    let leq = by_key();
    assert forall|a: u32, b: u32| #[trigger] leq(a, b) && #[trigger] leq(b, a) implies a == b by {
        crate::numeric::lemma_order_key_injective(a, b);
    }
    assert(vstd::relations::reflexive(leq));
    assert(vstd::relations::transitive(leq));
    assert(vstd::relations::strongly_connected(leq));
}

/// Merge two key-sorted vectors into one key-sorted vector holding the
/// elements of both.
fn merge_sorted(a: Vec<u32>, b: Vec<u32>) -> (r: Vec<u32>)
    requires
        sorted_by(a@, by_key()),
        sorted_by(b@, by_key()),
    ensures
        sorted_by(r@, by_key()),
        r@.to_multiset() == a@.to_multiset().add(b@.to_multiset()),
        r@.len() == a@.len() + b@.len(),
{
    broadcast use group_to_multiset_ensures;

    let mut out: Vec<u32> = Vec::new();
    let mut i: usize = 0;
    let mut j: usize = 0;
    proof {
        assert(a@.subrange(0, 0) =~= Seq::<u32>::empty());
        assert(b@.subrange(0, 0) =~= Seq::<u32>::empty());
        assert(Seq::<u32>::empty().to_multiset() =~= Multiset::<u32>::empty());
        assert(out@.to_multiset() =~= a@.subrange(0, 0).to_multiset().add(
            b@.subrange(0, 0).to_multiset(),
        ));
    }
    while i < a.len() || j < b.len()
        invariant
            i <= a@.len(),
            j <= b@.len(),
            sorted_by(a@, by_key()),
            sorted_by(b@, by_key()),
            sorted_by(out@, by_key()),
            out@.len() == i + j,
            out@.to_multiset() == a@.subrange(0, i as int).to_multiset().add(
                b@.subrange(0, j as int).to_multiset(),
            ),
            out@.len() > 0 && i < a@.len() ==> key_le(out@[out@.len() - 1], a@[i as int]),
            out@.len() > 0 && j < b@.len() ==> key_le(out@[out@.len() - 1], b@[j as int]),
        decreases a@.len() - i + b@.len() - j,
    {
        let take_a = if i < a.len() {
            if j < b.len() {
                le_key_bits(a[i], b[j])
            } else {
                true
            }
        } else {
            false
        };
        if take_a {
            let ghost out0 = out@;
            let ghost elem = a@[i as int];
            out.push(a[i]);
            proof {
                vstd::seq_lib::to_multiset_build(out0, elem);
                vstd::seq_lib::to_multiset_build(a@.subrange(0, i as int), elem);
                assert(out@ == out0.push(elem));
                assert(out@.to_multiset() =~= out0.to_multiset().insert(elem));
                assert(a@.subrange(0, i + 1) =~= a@.subrange(0, i as int).push(elem));
                assert(a@.subrange(0, i + 1).to_multiset() =~= a@.subrange(
                    0,
                    i as int,
                ).to_multiset().insert(elem));
                assert(out@.to_multiset() =~= a@.subrange(0, i + 1).to_multiset().add(
                    b@.subrange(0, j as int).to_multiset(),
                ));
                if j < b@.len() {
                    assert(key_le(elem, b@[j as int]));
                }
                if i + 1 < a@.len() {
                    assert(by_key()(a@[i as int], a@[i + 1]));
                }
                assert forall|p: int, q: int|
                    0 <= p < q < out@.len() implies by_key()(out@[p], out@[q]) by {
                    if q < out@.len() - 1 {
                        assert(by_key()(out0[p], out0[q]));
                    } else if p < out0.len() {
                        if p < out0.len() - 1 {
                            assert(by_key()(out0[p], out0[out0.len() - 1]));
                        }
                        assert(key_le(out0[out0.len() - 1], elem));
                    }
                }
            }
            i = i + 1;
        } else {
            let ghost out0 = out@;
            let ghost elem = b@[j as int];
            out.push(b[j]);
            proof {
                vstd::seq_lib::to_multiset_build(out0, elem);
                vstd::seq_lib::to_multiset_build(b@.subrange(0, j as int), elem);
                assert(out@ == out0.push(elem));
                assert(out@.to_multiset() =~= out0.to_multiset().insert(elem));
                assert(b@.subrange(0, j + 1) =~= b@.subrange(0, j as int).push(elem));
                assert(b@.subrange(0, j + 1).to_multiset() =~= b@.subrange(
                    0,
                    j as int,
                ).to_multiset().insert(elem));
                assert(out@.to_multiset() =~= a@.subrange(0, i as int).to_multiset().add(
                    b@.subrange(0, j + 1).to_multiset(),
                ));
                if i < a@.len() {
                    assert(key_le(elem, a@[i as int]));
                }
                if j + 1 < b@.len() {
                    assert(by_key()(b@[j as int], b@[j + 1]));
                    assert(key_le(elem, b@[j + 1]));
                }
                assert forall|p: int, q: int|
                    0 <= p < q < out@.len() implies by_key()(out@[p], out@[q]) by {
                    if q < out@.len() - 1 {
                        assert(by_key()(out0[p], out0[q]));
                    } else if p < out0.len() {
                        if p < out0.len() - 1 {
                            assert(by_key()(out0[p], out0[out0.len() - 1]));
                        }
                        assert(key_le(out0[out0.len() - 1], elem));
                    }
                }
            }
            j = j + 1;
        }
    }
    proof {
        assert(a@.subrange(0, i as int) =~= a@);
        assert(b@.subrange(0, j as int) =~= b@);
    }
    out
}

/// Sort a vector of patterns by the IEEE total order: the result is sorted
/// and holds exactly the input's elements.
pub fn sort_patterns(v: Vec<u32>) -> (r: Vec<u32>)
    ensures
        sorted_by(r@, by_key()),
        r@.to_multiset() == v@.to_multiset(),
        r@.len() == v@.len(),
    decreases v@.len(),
{
    broadcast use group_to_multiset_ensures;

    if v.len() <= 1 {
        v
    } else {
        let mid = v.len() / 2;
        let mut left: Vec<u32> = Vec::new();
        let mut right: Vec<u32> = Vec::new();
        let mut i: usize = 0;
        while i < mid
            invariant
                mid <= v@.len(),
                i <= mid,
                left@ == v@.subrange(0, i as int),
            decreases mid - i,
        {
            left.push(v[i]);
            proof {
                assert(left@ =~= v@.subrange(0, i + 1));
            }
            i = i + 1;
        }
        let mut k: usize = mid;
        while k < v.len()
            invariant
                mid <= k <= v@.len(),
                right@ == v@.subrange(mid as int, k as int),
            decreases v@.len() - k,
        {
            right.push(v[k]);
            proof {
                assert(right@ =~= v@.subrange(mid as int, k + 1));
            }
            k = k + 1;
        }
        proof {
            assert(left@ + right@ =~= v@);
            lemma_multiset_commutative(left@, right@);
        }
        let ghost full = v@;
        let ghost lview = left@;
        let ghost rview = right@;
        let ls = sort_patterns(left);
        let rs = sort_patterns(right);
        let r = merge_sorted(ls, rs);
        proof {
            assert(r@.to_multiset() =~= full.to_multiset());
        }
        r
    }
}

/// In a sorted vector, the first element is a key-least member, and any
/// member of the underlying multiset is bounded below by it.
pub proof fn lemma_sorted_first_least(s: Seq<u32>)
    requires
        sorted_by(s, by_key()),
        s.len() > 0,
    ensures
        forall|x: u32| s.to_multiset().contains(x) ==> key_le(s[0], x),
{
    broadcast use group_to_multiset_ensures;

    assert forall|x: u32| s.to_multiset().contains(x) implies key_le(s[0], x) by {
        assert(s.contains(x));
        let idx = choose|idx: int| 0 <= idx < s.len() && s[idx] == x;
        if idx > 0 {
            assert(by_key()(s[0], s[idx]));
        }
    }
}

} // verus!

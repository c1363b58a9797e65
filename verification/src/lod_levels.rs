//! Index sets of the levels of detail over an ordered list of items.
//!
//! The first level takes evenly strided indices and always ends on the last
//! item; its stride is the number of items over the number of intervals asked
//! for, rounded to the nearest integer. Each refinement inserts the integer midpoint between every pair of
//! neighbouring indices that are not yet adjacent, so that every level holds
//! all indices of the level before it. This module defines those index sets
//! as sequences, proves what holds of them, and computes them.

use vstd::arithmetic::power2::pow2;
use vstd::prelude::*;

verus! {

/// The divisor of the first level: one less than the requested count, at least 1.
pub open spec fn stride_divisor(target_count: nat) -> nat {
    if target_count >= 2 {
        (target_count - 1) as nat
    } else {
        1
    }
}

/// The step between neighbouring indices of the first level:
/// `len / stride_divisor(target_count)` rounded to the nearest integer, a
/// half rounded up, and at least 1.
pub open spec fn stride(len: nat, target_count: nat) -> nat {
    let divisor = stride_divisor(target_count);
    let rounded = (2 * len + divisor) / (2 * divisor);
    if rounded < 1 {
        1
    } else {
        rounded as nat
    }
}

/// How many multiples of `step` lie below `len`.
pub open spec fn stride_count(len: nat, step: nat) -> nat
    recommends
        step >= 1,
{
    if len == 0 {
        0
    } else {
        ((len - 1) / (step as int) + 1) as nat
    }
}

/// The multiples of `step` below `len`, ascending: `0, step, 2 * step, ...`.
pub open spec fn strided(len: nat, step: nat) -> Seq<usize>
    recommends
        step >= 1,
{
    Seq::new(stride_count(len, step), |i: int| (i * step) as usize)
}

/// The index set of the first level over `len` items: the strided indices,
/// followed by the last index `len - 1` where the stride does not land on it.
pub open spec fn first_level(len: nat, target_count: nat) -> Seq<usize> {
    let s = strided(len, stride(len, target_count));
    if len == 0 {
        Seq::empty()
    } else if s.last() == len - 1 {
        s
    } else {
        s.push((len - 1) as usize)
    }
}

/// Strictly ascending indices, each below `len`.
pub open spec fn ascending_below(s: Seq<usize>, len: nat) -> bool {
    &&& forall|i: int, j: int| 0 <= i < j < s.len() ==> s[i] < s[j]
    &&& forall|i: int| 0 <= i < s.len() ==> s[i] < len
}

/// The index set spans the whole list: it is empty exactly when the list is,
/// starts at the first item and ends at the last.
pub open spec fn spans(s: Seq<usize>, len: nat) -> bool {
    if len == 0 {
        s.len() == 0
    } else {
        s.len() > 0 && s.first() == 0 && s.last() == len - 1
    }
}

/// The integer midpoint of two indices.
pub open spec fn midpoint(a: usize, b: usize) -> usize {
    ((a + b) / 2) as usize
}

/// One refinement of an index set: between each pair of neighbours comes
/// their midpoint, unless the midpoint is one of the two.
pub open spec fn refine(s: Seq<usize>) -> Seq<usize>
    decreases s.len(),
{
    if s.len() <= 1 {
        s
    } else {
        let head = refine(s.drop_last());
        let a = s[s.len() - 2];
        let b = s.last();
        let m = midpoint(a, b);
        if m == a || m == b {
            head.push(b)
        } else {
            head.push(m).push(b)
        }
    }
}

/// `k` refinements in a row.
pub open spec fn refine_times(s: Seq<usize>, k: nat) -> Seq<usize>
    decreases k,
{
    if k == 0 {
        s
    } else {
        refine_times(refine(s), (k - 1) as nat)
    }
}

/// How many pairs of neighbours are at least 2 apart: the number of
/// midpoints that one refinement inserts.
pub open spec fn wide_gaps(s: Seq<usize>) -> nat
    decreases s.len(),
{
    if s.len() <= 1 {
        0
    } else {
        let rest = wide_gaps(s.drop_last());
        if s.last() - s[s.len() - 2] >= 2 {
            rest + 1
        } else {
            rest
        }
    }
}

/// The largest distance between two neighbours, 0 where there are none.
pub open spec fn max_gap(s: Seq<usize>) -> nat
    decreases s.len(),
{
    if s.len() <= 1 {
        0
    } else {
        let rest = max_gap(s.drop_last());
        let gap = s.last() - s[s.len() - 2];
        if gap > rest {
            gap as nat
        } else {
            rest
        }
    }
}

/// How often a gap must be halved, rounding up, until it is at most 1.
pub open spec fn halvings(gap: nat) -> nat
    decreases gap,
{
    if gap <= 1 {
        0
    } else {
        1 + halvings((gap + 1) / 2)
    }
}

/// The sizes of all levels from `s` on: the size of `s`, then that of each
/// further refinement for as long as refining adds indices and stays within
/// `len` of them.
pub open spec fn level_sizes(s: Seq<usize>, len: nat) -> Seq<nat>
    decreases len - s.len(),
{
    if s.len() < refine(s).len() <= len {
        seq![s.len()] + level_sizes(refine(s), len)
    } else {
        seq![s.len()]
    }
}

/// Computes `stride`: the quotient goes up by one where the remainder is at
/// least half the divisor.
pub(crate) fn stride_of(len: usize, target_count: usize) -> (step: usize)
    ensures
        step == stride(len as nat, target_count as nat),
        step >= 1,
{
    let divisor: usize = if target_count >= 2 {
        target_count - 1
    } else {
        1
    };
    let quotient: usize = len / divisor;
    let rest: usize = len % divisor;
    proof {
        vstd::arithmetic::div_mod::lemma_fundamental_div_mod(len as int, divisor as int);
        if rest >= divisor - rest {
            assert(2 * len + divisor == (quotient + 1) * (2 * divisor) + (2 * rest - divisor))
                by (nonlinear_arith)
                requires
                    len == divisor * quotient + rest,
            ;
            vstd::arithmetic::div_mod::lemma_fundamental_div_mod_converse(
                2 * len + divisor,
                2 * divisor,
                quotient + 1,
                2 * rest - divisor,
            );
            assert(quotient < len) by (nonlinear_arith)
                requires
                    len == divisor * quotient + rest,
                    divisor >= 1,
                    quotient >= 0,
                    rest >= divisor - rest,
                    rest < divisor,
            ;
        } else {
            assert(2 * len + divisor == quotient * (2 * divisor) + (2 * rest + divisor))
                by (nonlinear_arith)
                requires
                    len == divisor * quotient + rest,
            ;
            vstd::arithmetic::div_mod::lemma_fundamental_div_mod_converse(
                2 * len + divisor,
                2 * divisor,
                quotient as int,
                2 * rest + divisor,
            );
        }
    }
    let rounded: usize = if rest >= divisor - rest {
        quotient + 1
    } else {
        quotient
    };
    if rounded < 1 {
        1
    } else {
        rounded
    }
}

/// Builds `first_level` for a list of `len` items.
pub(crate) fn first_level_of(len: usize, target_count: usize) -> (indices: Vec<usize>)
    ensures
        indices@ == first_level(len as nat, target_count as nat),
{
    let mut indices: Vec<usize> = Vec::new();
    if len == 0 {
        return indices;
    }
    let step: usize = stride_of(len, target_count);
    let count: usize = (len - 1) / step + 1;
    let mut k: usize = 0;
    while k < count
        invariant
            step >= 1,
            len >= 1,
            count == stride_count(len as nat, step as nat),
            k <= count,
            indices@ == Seq::new(k as nat, |i: int| (i * step) as usize),
        decreases count - k,
    {
        proof {
            lemma_multiple_below(k as int, step as int, len - 1);
        }
        indices.push(k * step);
        k += 1;
        assert(indices@ =~= Seq::new(k as nat, |i: int| (i * step) as usize));
    }
    if indices[count - 1] != len - 1 {
        indices.push(len - 1);
    }
    indices
}

/// Computes `refine`, and tells where the index at position `cursor` of the
/// level stands in the refinement (0 where `cursor` is past the end).
pub(crate) fn refine_of(indices: &Vec<usize>, cursor: usize) -> (out: (Vec<usize>, usize))
    requires
        forall|i: int, j: int| 0 <= i < j < indices@.len() ==> indices@[i] < indices@[j],
    ensures
        out.0@ == refine(indices@),
        cursor < indices@.len() ==> out.1 < out.0@.len() && out.0@[out.1 as int]
            == indices@[cursor as int],
        cursor >= indices@.len() ==> out.1 == 0,
{
    let mut fine: Vec<usize> = Vec::new();
    let mut moved: usize = 0;
    let mut i: usize = 0;
    while i < indices.len()
        invariant
            i <= indices@.len(),
            forall|i: int, j: int| 0 <= i < j < indices@.len() ==> indices@[i] < indices@[j],
            fine@ == refine(indices@.take(i as int)),
            fine@.len() <= 2 * i,
            cursor < i ==> moved < fine@.len() && fine@[moved as int] == indices@[cursor as int],
            cursor >= i ==> moved == 0,
        decreases indices@.len() - i,
    {
        let b: usize = indices[i];
        proof {
            let t = indices@.take(i as int + 1);
            assert(t.drop_last() == indices@.take(i as int));
            assert(t.last() == b);
            if i > 0 {
                assert(t[t.len() - 2] == indices@[i - 1]);
            }
        }
        if i > 0 {
            let a: usize = indices[i - 1];
            let m: usize = a + (b - a) / 2;
            assert(m == midpoint(a, b));
            if !(m == a || m == b) {
                fine.push(m);
            }
        }
        if i == cursor {
            moved = fine.len();
        }
        fine.push(b);
        i += 1;
    }
    assert(indices@.take(i as int) == indices@);
    (fine, moved)
}

/// Well-formedness of the first level: it is strictly ascending, stays below
/// `len`, and spans the list.
pub proof fn lemma_first_level_spans(len: nat, target_count: nat)
    requires
        len <= usize::MAX,
    ensures
        ascending_below(first_level(len, target_count), len),
        spans(first_level(len, target_count), len),
        first_level(len, target_count).len() <= len,
{
    let step = stride(len, target_count);
    let s = strided(len, step);
    if len > 0 {
        let count = stride_count(len, step);
        assert forall|i: int| 0 <= i < count implies (#[trigger] s[i]) == i * step && s[i] < len by {
            lemma_multiple_below(i, step as int, len - 1);
        }
        assert forall|i: int, j: int| 0 <= i < j < count implies s[i] < s[j] by {
            lemma_multiple_below(i, step as int, len - 1);
            lemma_multiple_below(j, step as int, len - 1);
            assert(i * step < j * step) by (nonlinear_arith)
                requires
                    0 <= i < j,
                    step >= 1,
            ;
        }
        assert(s.first() == 0);
        assert(ascending_below(s, len));
        assert(count <= len) by {
            lemma_multiple_below(count - 1, step as int, len - 1);
            assert(count - 1 <= (count - 1) * step) by (nonlinear_arith)
                requires
                    count >= 1,
                    step >= 1,
            ;
        }
        if s.last() != len - 1 {
            let t = s.push((len - 1) as usize);
            assert(s.len() < len) by {
                if s.len() == len {
                    assert(count - 1 <= (count - 1) * step) by (nonlinear_arith)
                        requires
                            count >= 1,
                            step >= 1,
                    ;
                }
            }
            assert forall|i: int, j: int| 0 <= i < j < t.len() implies t[i] < t[j] by {
                if j == s.len() {
                    assert(s[i] <= s.last());
                }
            }
        }
    }
}

/// A first level that is asked to hold at least as many items as there are
/// holds every item, but for 3 items of which 3 are asked: there the stride
/// is 1.5 rounded to 2, and the level is the first and the last item.
pub proof fn lemma_first_level_saturated(len: nat, target_count: nat)
    requires
        len <= usize::MAX,
        target_count >= len,
        !(len == 3 && target_count == 3),
    ensures
        first_level(len, target_count).len() == len,
{
    let d = stride_divisor(target_count);
    let step = stride(len, target_count);
    let rounded = (2 * len + d) / (2 * d);
    if len == 2 && target_count == 2 {
        vstd::arithmetic::div_mod::lemma_fundamental_div_mod_converse(5, 2, 2, 1);
        assert(rounded == 2);
        assert(stride_count(len, step) == 1);
        assert(strided(len, step).last() == 0);
    } else if len > 0 {
        if target_count >= 2 {
            assert(0 <= rounded <= 1) by (nonlinear_arith)
                requires
                    rounded == (2 * len + d) / (2 * d),
                    0 <= 2 * len + d < 4 * d,
                    d >= 1,
            ;
        } else {
            vstd::arithmetic::div_mod::lemma_fundamental_div_mod_converse(3, 2, 1, 1);
            assert(rounded == 1);
        }
        assert(stride_count(len, step) == len);
        assert(strided(len, step).last() == len - 1);
    }
}

/// A refinement keeps a strictly ascending index set strictly ascending and
/// below `len`, keeps its first and last index, and grows it by one index for
/// each pair of neighbours that is at least 2 apart.
pub proof fn lemma_refine_ascending(s: Seq<usize>, len: nat)
    requires
        ascending_below(s, len),
    ensures
        ascending_below(refine(s), len),
        refine(s).len() == s.len() + wide_gaps(s),
        s.len() > 0 ==> refine(s).first() == s.first() && refine(s).last() == s.last(),
        spans(s, len) ==> spans(refine(s), len),
    decreases s.len(),
{
    if s.len() > 1 {
        let p = s.drop_last();
        lemma_refine_ascending(p, len);
        let head = refine(p);
        let a = s[s.len() - 2];
        let b = s.last();
        assert(p.last() == a);
        assert(p.first() == s.first());
        assert(a < b);
        let m = midpoint(a, b);
        let r = refine(s);
        assert forall|i: int| 0 <= i < head.len() implies (#[trigger] head[i]) <= a by {
            if i < head.len() - 1 {
                assert(head[i] < head[head.len() - 1]);
            }
        }
        assert forall|i: int, j: int| 0 <= i < j < r.len() implies r[i] < r[j] by {
            if i < head.len() {
                assert(head[i] <= a);
            }
            if j < head.len() {
                assert(head[i] < head[j]);
            }
        }
        assert forall|i: int| 0 <= i < r.len() implies r[i] < len by {
            if i < head.len() {
                assert(head[i] < len);
            }
        }
        assert(r.first() == head.first());
    }
}

/// Every index of a level is an index of its refinement.
pub proof fn lemma_refine_keeps(s: Seq<usize>, i: int)
    requires
        0 <= i < s.len(),
    ensures
        refine(s).contains(s[i]),
    decreases s.len(),
{
    let r = refine(s);
    if s.len() <= 1 {
        assert(r[i] == s[i]);
    } else if i == s.len() - 1 {
        assert(r[r.len() - 1] == s[i]);
    } else {
        let p = s.drop_last();
        lemma_refine_keeps(p, i);
        let head = refine(p);
        let k = choose|k: int| 0 <= k < head.len() && head[k] == p[i];
        assert(r[k] == head[k]);
    }
}

/// Until saturation every refinement adds an index: a level that spans `len`
/// items and holds fewer than `len` indices has a strictly larger refinement,
/// and a level that holds `len` indices stays as it is.
pub proof fn lemma_refine_grows(s: Seq<usize>, len: nat)
    requires
        ascending_below(s, len),
        spans(s, len),
    ensures
        s.len() < len ==> s.len() < refine(s).len() <= len,
        s.len() == len ==> refine(s) == s,
        s.len() <= len,
{
    lemma_refine_ascending(s, len);
    lemma_ascending_len(s, len);
    lemma_ascending_len(refine(s), len);
    if s.len() < len {
        if wide_gaps(s) == 0 {
            lemma_no_wide_gaps_is_dense(s);
        }
    } else if len > 0 {
        lemma_ascending_climbs(s, 0, s.len() - 1);
        assert(wide_gaps(s) == 0) by {
            lemma_dense_has_no_wide_gaps(s);
        }
        lemma_refine_of_dense(s);
    } else {
        assert(s.len() == 0);
    }
}

/// A refinement halves the largest gap, rounding up.
pub proof fn lemma_refine_halves_gaps(s: Seq<usize>, len: nat)
    requires
        ascending_below(s, len),
    ensures
        max_gap(refine(s)) <= (max_gap(s) + 1) / 2,
    decreases s.len(),
{
    if s.len() > 1 {
        let p = s.drop_last();
        lemma_refine_halves_gaps(p, len);
        lemma_refine_ascending(p, len);
        let head = refine(p);
        let a = s[s.len() - 2];
        let b = s.last();
        assert(p.last() == a);
        assert(head.last() == a);
        assert(a < b);
        let m = midpoint(a, b);
        let r = refine(s);
        let g = max_gap(s);
        assert(g >= b - a && g >= max_gap(p));
        if m == a || m == b {
            assert(r.drop_last() == head);
        } else {
            let mid = head.push(m);
            assert(r.drop_last() == mid);
            assert(mid.drop_last() == head);
            assert(max_gap(mid) <= (g + 1) / 2);
        }
    }
}

/// Saturation is reached after as many refinements as the largest gap has
/// halvings, and kept from then on: a level that spans `len` items holds all
/// of them after `k` refinements, for every `k` from that number on.
pub proof fn lemma_refinements_saturate(s: Seq<usize>, len: nat, k: nat)
    requires
        ascending_below(s, len),
        spans(s, len),
        k >= halvings(max_gap(s)),
    ensures
        refine_times(s, k).len() == len,
        ascending_below(refine_times(s, k), len),
    decreases k,
{
    if k == 0 {
        if len > 0 {
            lemma_narrow_is_dense(s);
        }
    } else {
        let g = max_gap(s);
        lemma_refine_ascending(s, len);
        lemma_refine_halves_gaps(s, len);
        lemma_halvings_monotone(max_gap(refine(s)), (g + 1) / 2);
        lemma_refinements_saturate(refine(s), len, (k - 1) as nat);
    }
}

/// Saturation takes a number of refinements that is logarithmic in the
/// number of items: a level that spans `len` items, with `len` at least 2,
/// holds all of them after `k` refinements, where `2` to the power `k` is
/// less than `2 * len`.
pub proof fn lemma_saturation_is_logarithmic(s: Seq<usize>, len: nat)
    requires
        ascending_below(s, len),
        spans(s, len),
        len >= 2,
    ensures
        refine_times(s, halvings(max_gap(s))).len() == len,
        pow2(halvings(max_gap(s))) < 2 * len,
{
    lemma_refinements_saturate(s, len, halvings(max_gap(s)));
    lemma_max_gap_below_len(s, len);
    if max_gap(s) >= 1 {
        lemma_halvings_is_logarithm(max_gap(s));
    } else {
        vstd::arithmetic::power2::lemma2_to64();
    }
}

/// The number of halvings is the logarithm of the gap to base 2, rounded up:
/// `2` to that power is at least the gap and less than twice the gap.
pub proof fn lemma_halvings_is_logarithm(gap: nat)
    requires
        gap >= 1,
    ensures
        gap <= pow2(halvings(gap)) < 2 * gap,
        gap >= 2 ==> pow2(halvings(gap)) <= 2 * (gap - 1),
    decreases gap,
{
    vstd::arithmetic::power2::lemma2_to64();
    if gap >= 2 {
        let half = (gap + 1) / 2;
        lemma_halvings_is_logarithm(half);
        vstd::arithmetic::power2::lemma_pow2_unfold(halvings(gap));
    }
}

/// A wider gap takes at least as many halvings.
pub proof fn lemma_halvings_monotone(a: nat, b: nat)
    requires
        a <= b,
    ensures
        halvings(a) <= halvings(b),
    decreases b,
{
    if a > 1 {
        lemma_halvings_monotone((a + 1) / 2, (b + 1) / 2);
    }
}

/// The list of level sizes starts with the size of the level itself, holds
/// the size after `i` refinements at position `i`, ends with `len`, and has
/// at most one entry more than the largest gap has halvings.
pub proof fn lemma_level_sizes(s: Seq<usize>, len: nat)
    requires
        ascending_below(s, len),
        spans(s, len),
    ensures
        level_sizes(s, len).len() <= halvings(max_gap(s)) + 1,
        forall|i: int|
            0 <= i < level_sizes(s, len).len() ==> (#[trigger] level_sizes(s, len)[i])
                == refine_times(s, i as nat).len(),
        forall|i: int, j: int|
            0 <= i < j < level_sizes(s, len).len() ==> level_sizes(s, len)[i] < level_sizes(
                s,
                len,
            )[j],
        level_sizes(s, len).last() == len,
    decreases len - s.len(),
{
    lemma_refine_grows(s, len);
    if s.len() < len {
        let r = refine(s);
        lemma_refine_ascending(s, len);
        lemma_level_sizes(r, len);
        lemma_refine_halves_gaps(s, len);
        let g = max_gap(s);
        if g <= 1 {
            lemma_narrow_is_dense(s);
        }
        lemma_halvings_monotone(max_gap(r), (g + 1) / 2);
        let tail = level_sizes(r, len);
        let all = level_sizes(s, len);
        assert(all == seq![s.len()] + tail);
        assert forall|i: int| 0 <= i < all.len() implies (#[trigger] all[i]) == refine_times(
            s,
            i as nat,
        ).len() by {
            if i > 0 {
                assert(all[i] == tail[i - 1]);
            }
        }
        assert(tail[0] == r.len());
        assert forall|i: int, j: int| 0 <= i < j < all.len() implies all[i] < all[j] by {
            assert(all[j] == tail[j - 1]);
            if i > 0 {
                assert(all[i] == tail[i - 1]);
            } else if j > 1 {
                assert(tail[0] < tail[j - 1]);
            }
        }
        assert(all.last() == tail.last());
    }
}

/// A strictly ascending sequence climbs by at least 1 per position.
pub proof fn lemma_ascending_climbs(s: Seq<usize>, i: int, j: int)
    requires
        forall|i: int, j: int| 0 <= i < j < s.len() ==> s[i] < s[j],
        0 <= i <= j < s.len(),
    ensures
        s[j] - s[i] >= j - i,
    decreases j - i,
{
    if i < j {
        lemma_ascending_climbs(s, i, j - 1);
        assert(s[j - 1] < s[j]);
    }
}

/// A strictly ascending index set below `len` has at most `len` indices.
pub proof fn lemma_ascending_len(s: Seq<usize>, len: nat)
    requires
        ascending_below(s, len),
    ensures
        s.len() <= len,
{
    if s.len() > 0 {
        lemma_ascending_climbs(s, 0, s.len() - 1);
    }
}

/// The largest gap of a level that spans `len` items is less than `len`.
pub proof fn lemma_max_gap_below_len(s: Seq<usize>, len: nat)
    requires
        ascending_below(s, len),
        len > 0,
    ensures
        max_gap(s) < len,
    decreases s.len(),
{
    if s.len() > 1 {
        lemma_max_gap_below_len(s.drop_last(), len);
    }
}

/// Where no two neighbours are more than 1 apart, the index set is a run of
/// consecutive indices, and a refinement inserts nothing.
pub proof fn lemma_narrow_is_dense(s: Seq<usize>)
    requires
        forall|i: int, j: int| 0 <= i < j < s.len() ==> s[i] < s[j],
        max_gap(s) <= 1,
        s.len() > 0,
    ensures
        s.last() - s.first() == s.len() - 1,
        wide_gaps(s) == 0,
    decreases s.len(),
{
    if s.len() > 1 {
        let p = s.drop_last();
        assert(p.first() == s.first());
        assert(p.last() == s[s.len() - 2]);
        lemma_narrow_is_dense(p);
        assert(s[s.len() - 2] < s.last());
    }
}

/// Where a refinement inserts nothing, the index set is a run of consecutive
/// indices.
pub proof fn lemma_no_wide_gaps_is_dense(s: Seq<usize>)
    requires
        forall|i: int, j: int| 0 <= i < j < s.len() ==> s[i] < s[j],
        wide_gaps(s) == 0,
        s.len() > 0,
    ensures
        s.last() - s.first() == s.len() - 1,
    decreases s.len(),
{
    if s.len() > 1 {
        let p = s.drop_last();
        assert(p.first() == s.first());
        assert(p.last() == s[s.len() - 2]);
        lemma_no_wide_gaps_is_dense(p);
        assert(s[s.len() - 2] < s.last());
    }
}

/// A run of consecutive indices has no wide gap.
proof fn lemma_dense_has_no_wide_gaps(s: Seq<usize>)
    requires
        forall|i: int, j: int| 0 <= i < j < s.len() ==> s[i] < s[j],
        s.len() > 0,
        s.last() - s.first() == s.len() - 1,
    ensures
        wide_gaps(s) == 0,
    decreases s.len(),
{
    if s.len() > 1 {
        let p = s.drop_last();
        assert(p.first() == s.first());
        assert(p.last() == s[s.len() - 2]);
        lemma_ascending_climbs(s, 0, s.len() - 2);
        assert(s[s.len() - 2] < s.last());
        lemma_dense_has_no_wide_gaps(p);
    }
}

/// Refining an index set without wide gaps returns it unchanged.
proof fn lemma_refine_of_dense(s: Seq<usize>)
    requires
        forall|i: int, j: int| 0 <= i < j < s.len() ==> s[i] < s[j],
        wide_gaps(s) == 0,
    ensures
        refine(s) == s,
    decreases s.len(),
{
    if s.len() > 1 {
        let p = s.drop_last();
        lemma_refine_of_dense(p);
        assert(s[s.len() - 2] < s.last());
        assert(p.push(s.last()) == s);
    }
}

/// For `0 <= i <= bound / step`, the multiple `i * step` is at most `bound`.
proof fn lemma_multiple_below(i: int, step: int, bound: int)
    requires
        step >= 1,
        bound >= 0,
        0 <= i <= bound / step,
    ensures
        0 <= i * step <= bound,
{
    vstd::arithmetic::div_mod::lemma_fundamental_div_mod(bound, step);
    vstd::arithmetic::div_mod::lemma_mod_bound(bound, step);
    assert(i * step <= (bound / step) * step) by (nonlinear_arith)
        requires
            0 <= i <= bound / step,
            step >= 1,
    ;
    assert(0 <= i * step) by (nonlinear_arith)
        requires
            0 <= i,
            step >= 1,
    ;
    assert((bound / step) * step == step * (bound / step)) by (nonlinear_arith);
}

} // verus!

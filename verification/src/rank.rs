//! Ranking of aggregate scores by their average, and the choice of the lowest
//! and the highest of them.

use vstd::prelude::*;
use vstd::arithmetic::div_mod::{lemma_fundamental_div_mod, lemma_mod_bound};
use vstd::seq_lib::{to_multiset_build, to_multiset_insert};
use crate::model::AggregateScore;

verus! {

/// Numerator of the average of `e`; 0 where nothing was recorded.
pub open spec fn mean_num(e: AggregateScore) -> int {
    if e.count == 0 {
        0
    } else {
        e.sum as int
    }
}

/// Denominator of the average of `e`; 1 where nothing was recorded, so that
/// the average of an empty group is 0.
pub open spec fn mean_den(e: AggregateScore) -> int {
    if e.count == 0 {
        1
    } else {
        e.count as int
    }
}

/// The average of `a` is at most the average of `b`.
pub open spec fn mean_le(a: AggregateScore, b: AggregateScore) -> bool {
    mean_num(a) * mean_den(b) <= mean_num(b) * mean_den(a)
}

/// The scores are in ascending order of their averages.
pub open spec fn sorted_by_mean(s: Seq<AggregateScore>) -> bool {
    forall|i: int, j: int| 0 <= i <= j < s.len() ==> mean_le(s[i], s[j])
}

/// `s` holds the scores of `entries`, in ascending order of their averages.
pub open spec fn is_ranking(entries: Seq<AggregateScore>, s: Seq<AggregateScore>) -> bool {
    s.to_multiset() == entries.to_multiset() && sorted_by_mean(s)
}

/// The first `bottom` scores of `s`, then its last `top`.
pub open spec fn extremes(s: Seq<AggregateScore>, top: int, bottom: int) -> Seq<AggregateScore> {
    s.take(bottom) + s.skip(s.len() - top)
}

/// Of two averages one is at most the other.
pub proof fn lemma_mean_le_total(a: AggregateScore, b: AggregateScore)
    ensures
        mean_le(a, b) || mean_le(b, a),
{
}

/// The order of the averages is transitive.
pub proof fn lemma_mean_le_transitive(a: AggregateScore, b: AggregateScore, c: AggregateScore)
    requires
        mean_le(a, b),
        mean_le(b, c),
    ensures
        mean_le(a, c),
{
    let (na, da) = (mean_num(a), mean_den(a));
    let (nb, db) = (mean_num(b), mean_den(b));
    let (nc, dc) = (mean_num(c), mean_den(c));
    assert(na * dc <= nc * da) by (nonlinear_arith)
        requires
            na * db <= nb * da,
            nb * dc <= nc * db,
            da > 0,
            db > 0,
            dc > 0,
            na >= 0,
            nb >= 0,
            nc >= 0,
    {
        assert((na * db) * dc <= (nb * da) * dc);
        assert((nb * dc) * da <= (nc * db) * da);
        assert((na * dc) * db <= (nc * da) * db);
    }
}

/// Two fractions compare as their integer parts do, and where these are equal
/// as their remainders do.
proof fn lemma_order_by_parts(qa: int, ra: int, da: int, qb: int, rb: int, db: int)
    requires
        0 <= ra < da,
        0 <= rb < db,
    ensures
        ((da * qa + ra) * db <= (db * qb + rb) * da) <==> (qa < qb || (qa == qb && ra * db <= rb
            * da)),
{
    let p = da * db;
    assert(ra * db < p) by (nonlinear_arith)
        requires
            0 <= ra < da,
            0 < db,
            p == da * db,
    ;
    assert(rb * da < p) by (nonlinear_arith)
        requires
            0 <= rb < db,
            0 < da,
            p == da * db,
    ;
    assert(0 <= ra * db && 0 <= rb * da) by (nonlinear_arith)
        requires
            0 <= ra,
            0 <= rb,
            0 < da,
            0 < db,
    ;
    assert((da * qa + ra) * db == qa * p + ra * db) by (nonlinear_arith)
        requires
            p == da * db,
    ;
    assert((db * qb + rb) * da == qb * p + rb * da) by (nonlinear_arith)
        requires
            p == da * db,
    ;
    if qa < qb {
        assert(qa * p + p <= qb * p) by (nonlinear_arith)
            requires
                qa < qb,
                p > 0,
        ;
    } else if qa > qb {
        assert(qb * p + p <= qa * p) by (nonlinear_arith)
            requires
                qb < qa,
                p > 0,
        ;
    }
}

/// Whether the average of `a` is at most the average of `b`.
pub fn score_le(a: &AggregateScore, b: &AggregateScore) -> (r: bool)
    ensures
        r == mean_le(*a, *b),
{
    let da: u128 = if a.count == 0 {
        1
    } else {
        a.count as u128
    };
    let na: u128 = if a.count == 0 {
        0
    } else {
        a.sum
    };
    let db: u128 = if b.count == 0 {
        1
    } else {
        b.count as u128
    };
    let nb: u128 = if b.count == 0 {
        0
    } else {
        b.sum
    };
    let qa: u128 = na / da;
    let ra: u128 = na % da;
    let qb: u128 = nb / db;
    let rb: u128 = nb % db;
    proof {
        lemma_fundamental_div_mod(na as int, da as int);
        lemma_fundamental_div_mod(nb as int, db as int);
        lemma_mod_bound(na as int, da as int);
        lemma_mod_bound(nb as int, db as int);
        lemma_order_by_parts(qa as int, ra as int, da as int, qb as int, rb as int, db as int);
        assert(ra * db <= u128::MAX && rb * da <= u128::MAX) by (nonlinear_arith)
            requires
                0 <= ra < da <= u64::MAX,
                0 <= rb < db <= u64::MAX,
        ;
    }
    if qa != qb {
        qa < qb
    } else {
        ra * db <= rb * da
    }
}

/// The scores of `entries` in ascending order of their averages.
pub fn sort_by_score(entries: &Vec<AggregateScore>) -> (sorted: Vec<AggregateScore>)
    ensures
        is_ranking(entries@, sorted@),
        sorted@.len() == entries@.len(),
{
    let mut sorted: Vec<AggregateScore> = Vec::new();
    let mut k: usize = 0;
    proof {
        assert(entries@.take(0) =~= sorted@);
    }
    while k < entries.len()
        invariant
            k <= entries.len(),
            sorted@.len() == k,
            sorted_by_mean(sorted@),
            sorted@.to_multiset() == entries@.take(k as int).to_multiset(),
        decreases entries.len() - k,
    {
        let e = entries[k].duplicate();
        let mut p: usize = 0;
        while p < sorted.len() && score_le(&sorted[p], &e)
            invariant
                p <= sorted.len(),
                forall|i: int| 0 <= i < p ==> mean_le(sorted@[i], e),
            decreases sorted.len() - p,
        {
            p += 1;
        }
        let ghost before = sorted@;
        proof {
            assert forall|j: int| p <= j < before.len() implies mean_le(e, before[j]) by {
                lemma_mean_le_total(before[p as int], e);
                lemma_mean_le_transitive(e, before[p as int], before[j]);
            }
        }
        sorted.insert(p, e);
        proof {
            to_multiset_insert(before, p as int, e);
            to_multiset_build(entries@.take(k as int), e);
            assert(entries@.take(k + 1) =~= entries@.take(k as int).push(e));
            assert forall|i: int, j: int| 0 <= i <= j < sorted@.len() implies mean_le(
                sorted@[i],
                sorted@[j],
            ) by {
                if i < p && j > p {
                    assert(mean_le(before[i], before[j - 1]));
                } else if i > p {
                    assert(mean_le(before[i - 1], before[j - 1]));
                } else if i < p && j < p {
                    assert(mean_le(before[i], before[j]));
                }
            }
        }
        k += 1;
    }
    proof {
        assert(entries@.take(k as int) =~= entries@);
    }
    sorted
}

/// The first `bottom` scores of `sorted`, then its last `top`.
pub fn select_extremes(sorted: &Vec<AggregateScore>, top: usize, bottom: usize) -> (out: Vec<
    AggregateScore,
>)
    requires
        top <= sorted.len(),
        bottom <= sorted.len(),
    ensures
        out@ == extremes(sorted@, top as int, bottom as int),
        out@.len() == bottom + top,
{
    let mut out: Vec<AggregateScore> = Vec::new();
    let mut i: usize = 0;
    while i < bottom
        invariant
            i <= bottom <= sorted.len(),
            out@ == sorted@.take(i as int),
        decreases bottom - i,
    {
        out.push(sorted[i].duplicate());
        proof {
            assert(sorted@.take(i + 1) =~= sorted@.take(i as int).push(sorted@[i as int]));
        }
        i += 1;
    }
    let first: usize = sorted.len() - top;
    let mut j: usize = first;
    while j < sorted.len()
        invariant
            first <= j <= sorted.len(),
            first == sorted.len() - top,
            out@ == sorted@.take(bottom as int) + sorted@.subrange(first as int, j as int),
        decreases sorted.len() - j,
    {
        out.push(sorted[j].duplicate());
        proof {
            assert(sorted@.subrange(first as int, j + 1) =~= sorted@.subrange(
                first as int,
                j as int,
            ).push(sorted@[j as int]));
            assert(out@ =~= sorted@.take(bottom as int) + sorted@.subrange(first as int, j + 1));
        }
        j += 1;
    }
    proof {
        assert(sorted@.subrange(first as int, sorted.len() as int) =~= sorted@.skip(
            sorted.len() - top,
        ));
    }
    out
}

/// The `bottom` scores with the lowest averages in ascending order, then the
/// `top` scores with the highest averages in ascending order.
pub fn rank(entries: &Vec<AggregateScore>, top: usize, bottom: usize) -> (out: Vec<AggregateScore>)
    requires
        top <= entries.len(),
        bottom <= entries.len(),
    ensures
        out@.len() == bottom + top,
        exists|s: Seq<AggregateScore>| #[trigger]
            is_ranking(entries@, s) && out@ == extremes(s, top as int, bottom as int),
        bottom + top <= entries.len() + 1 ==> sorted_by_mean(out@),
{
    let sorted = sort_by_score(entries);
    let out = select_extremes(&sorted, top, bottom);
    proof {
        assert(is_ranking(entries@, sorted@));
        if bottom + top <= entries.len() + 1 {
            lemma_extremes_sorted(sorted@, top as int, bottom as int);
        }
    }
    out
}

/// `rank`, for any counts: nothing where `top` or `bottom` is more than the
/// number of scores.
pub fn rank_checked(entries: &Vec<AggregateScore>, top: usize, bottom: usize) -> (ranked: Option<
    Vec<AggregateScore>,
>)
    ensures
        ranked is Some <==> top <= entries.len() && bottom <= entries.len(),
        ranked matches Some(out) ==> {
            &&& out@.len() == bottom + top
            &&& exists|s: Seq<AggregateScore>| #[trigger]
                is_ranking(entries@, s) && out@ == extremes(s, top as int, bottom as int)
            &&& bottom + top <= entries.len() + 1 ==> sorted_by_mean(out@)
        },
{
    if top > entries.len() || bottom > entries.len() {
        return None;
    }
    Some(rank(entries, top, bottom))
}

/// The lowest `bottom` and the highest `top` of a ranking are `bottom + top`
/// scores. Together they are in ascending order of their averages exactly
/// where one of the two parts is empty or the last of the lowest is at most
/// the first of the highest, which holds whenever the parts share at most one
/// score.
pub proof fn lemma_extremes_sorted(s: Seq<AggregateScore>, top: int, bottom: int)
    requires
        sorted_by_mean(s),
        0 <= top <= s.len(),
        0 <= bottom <= s.len(),
    ensures
        extremes(s, top, bottom).len() == bottom + top,
        sorted_by_mean(extremes(s, top, bottom)) <==> (bottom == 0 || top == 0 || mean_le(
            s[bottom - 1],
            s[s.len() - top],
        )),
        bottom + top <= s.len() + 1 ==> sorted_by_mean(extremes(s, top, bottom)),
{
    let out = extremes(s, top, bottom);
    let first = s.len() - top;
    assert forall|i: int| 0 <= i < out.len() implies out[i] == if i < bottom {
        s[i]
    } else {
        s[first + i - bottom]
    } by {}
    if bottom == 0 || top == 0 || mean_le(s[bottom - 1], s[first]) {
        assert forall|i: int, j: int| 0 <= i <= j < out.len() implies mean_le(out[i], out[j]) by {
            if i < bottom && j >= bottom {
                assert(mean_le(s[i], s[bottom - 1]));
                assert(mean_le(s[first], s[first + j - bottom]));
                lemma_mean_le_transitive(s[i], s[bottom - 1], s[first]);
                lemma_mean_le_transitive(s[i], s[first], s[first + j - bottom]);
            } else if j < bottom {
                assert(mean_le(s[i], s[j]));
            } else {
                assert(mean_le(s[first + i - bottom], s[first + j - bottom]));
            }
        }
    } else {
        assert(out[bottom - 1] == s[bottom - 1]);
        assert(out[bottom] == s[first]);
        assert(!mean_le(out[bottom - 1], out[bottom]));
    }
}

} // verus!

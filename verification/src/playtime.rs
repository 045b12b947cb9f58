//! Recommendation rate per hour of playtime, over recommendations sorted by
//! playtime.

use vstd::prelude::*;
use crate::model::{BucketRatio, Recommendation, SweepConfig};

verus! {

/// First tick of the bucket of `hour`.
pub open spec fn bucket_start(hour: u64, ticks_per_hour: u64) -> int {
    hour * ticks_per_hour
}

/// `r` was played for at least `hour` hours and less than `hour + 1`.
pub open spec fn in_bucket(r: Recommendation, hour: u64, ticks_per_hour: u64) -> bool {
    bucket_start(hour, ticks_per_hour) <= r.hours < bucket_start(hour, ticks_per_hour)
        + ticks_per_hour
}

/// Number of recommendations in the bucket of `hour`.
pub open spec fn bucket_total(recs: Seq<Recommendation>, hour: u64, ticks_per_hour: u64) -> nat
    decreases recs.len(),
{
    if recs.len() == 0 {
        0
    } else {
        bucket_total(recs.drop_last(), hour, ticks_per_hour) + if in_bucket(
            recs.last(),
            hour,
            ticks_per_hour,
        ) {
            1nat
        } else {
            0nat
        }
    }
}

/// Number of recommendations in the bucket of `hour` that recommend the game.
pub open spec fn bucket_recommended(
    recs: Seq<Recommendation>,
    hour: u64,
    ticks_per_hour: u64,
) -> nat
    decreases recs.len(),
{
    if recs.len() == 0 {
        0
    } else {
        bucket_recommended(recs.drop_last(), hour, ticks_per_hour) + if in_bucket(
            recs.last(),
            hour,
            ticks_per_hour,
        ) && recs.last().is_recommended {
            1nat
        } else {
            0nat
        }
    }
}

/// The recommendations are in ascending order of playtime.
pub open spec fn sorted_by_hours(recs: Seq<Recommendation>) -> bool {
    forall|i: int, j: int| 0 <= i <= j < recs.len() ==> recs[i].hours <= recs[j].hours
}

/// The exact rate of the bucket of `hour`.
pub open spec fn bucket_of(recs: Seq<Recommendation>, hour: u64, ticks_per_hour: u64)
    -> BucketRatio {
    BucketRatio {
        hour,
        recommended: bucket_recommended(recs, hour, ticks_per_hour) as usize,
        total: bucket_total(recs, hour, ticks_per_hour) as usize,
    }
}

/// The buckets of the hours `first <= h < end` with at least one
/// recommending review, in ascending order of the hour.
pub open spec fn series_of(recs: Seq<Recommendation>, first: int, end: int, ticks_per_hour: u64)
    -> Seq<BucketRatio>
    decreases end - first,
{
    if end <= first || end - 1 > u64::MAX || first < 0 {
        Seq::empty()
    } else {
        let rest = series_of(recs, first, end - 1, ticks_per_hour);
        let point = bucket_of(recs, (end - 1) as u64, ticks_per_hour);
        if point.recommended > 0 {
            rest.push(point)
        } else {
            rest
        }
    }
}

/// No bucket holds more recommending reviews than reviews, nor more reviews
/// than there are.
pub proof fn lemma_bucket_bounds(recs: Seq<Recommendation>, hour: u64, ticks_per_hour: u64)
    ensures
        bucket_recommended(recs, hour, ticks_per_hour) <= bucket_total(recs, hour, ticks_per_hour)
            <= recs.len(),
    decreases recs.len(),
{
    if recs.len() > 0 {
        lemma_bucket_bounds(recs.drop_last(), hour, ticks_per_hour);
    }
}

/// The rate of every bucket lies between 0 and 1, and a bucket that holds no
/// recommendation has the rate 0.
pub proof fn lemma_ratio_in_unit_interval(
    recs: Seq<Recommendation>,
    hour: u64,
    ticks_per_hour: u64,
)
    requires
        recs.len() <= usize::MAX,
    ensures
        bucket_of(recs, hour, ticks_per_hour).wf(),
        bucket_total(recs, hour, ticks_per_hour) == 0 ==> bucket_of(
            recs,
            hour,
            ticks_per_hour,
        ).recommended == 0,
{
    lemma_bucket_bounds(recs, hour, ticks_per_hour);
}

/// Where no recommendation at the positions `from <= i < to` is in the bucket,
/// the first `to` recommendations hold as many of it as the first `from`.
proof fn lemma_skip_outside(
    recs: Seq<Recommendation>,
    hour: u64,
    ticks_per_hour: u64,
    from: int,
    to: int,
)
    requires
        0 <= from <= to <= recs.len(),
        forall|i: int| from <= i < to ==> !in_bucket(recs[i], hour, ticks_per_hour),
    ensures
        bucket_total(recs.take(to), hour, ticks_per_hour) == bucket_total(
            recs.take(from),
            hour,
            ticks_per_hour,
        ),
        bucket_recommended(recs.take(to), hour, ticks_per_hour) == bucket_recommended(
            recs.take(from),
            hour,
            ticks_per_hour,
        ),
    decreases to - from,
{
    if from < to {
        lemma_skip_outside(recs, hour, ticks_per_hour, from, to - 1);
        assert(recs.take(to).drop_last() =~= recs.take(to - 1));
        assert(recs.take(to).last() == recs[to - 1]);
    }
}

/// Whether the recommendations are in ascending order of playtime.
pub fn is_sorted_by_hours(recs: &Vec<Recommendation>) -> (r: bool)
    ensures
        r == sorted_by_hours(recs@),
{
    if recs.len() < 2 {
        return true;
    }
    let mut i: usize = 1;
    while i < recs.len()
        invariant
            1 <= i <= recs.len(),
            forall|a: int, b: int| 0 <= a <= b < i ==> recs[a].hours <= recs[b].hours,
        decreases recs.len() - i,
    {
        if recs[i - 1].hours > recs[i].hours {
            return false;
        }
        i += 1;
    }
    true
}

/// Sorts with `slice::sort_unstable_by_key`, the key being the playtime.
/// Claimed of it: afterwards the vector is in ascending order of playtime and
/// holds the recommendations it held before, each as often as before.
#[verifier::external_body]
fn sort_unstable_by_hours(recs: &mut Vec<Recommendation>)
    ensures
        sorted_by_hours(final(recs)@),
        final(recs)@.to_multiset() == old(recs)@.to_multiset(),
{
    recs.sort_unstable_by_key(|r| r.hours);
}

/// The same recommendations in ascending order of playtime.
pub fn sort_by_hours(recs: Vec<Recommendation>) -> (sorted: Vec<Recommendation>)
    ensures
        sorted_by_hours(sorted@),
        sorted@.to_multiset() == recs@.to_multiset(),
        sorted@.len() == recs@.len(),
{
    let mut sorted = recs;
    sort_unstable_by_hours(&mut sorted);
    proof {
        sorted@.to_multiset_ensures();
        recs@.to_multiset_ensures();
    }
    sorted
}

/// Position of the first recommendation played for at least `bound` ticks, by
/// binary search; the number of recommendations where there is none.
pub fn first_at_least(recs: &Vec<Recommendation>, bound: u128) -> (start: usize)
    requires
        sorted_by_hours(recs@),
    ensures
        start <= recs.len(),
        forall|i: int| 0 <= i < start ==> recs[i].hours < bound,
        forall|i: int| start <= i < recs.len() ==> recs[i].hours >= bound,
{
    let mut low: usize = 0;
    let mut high: usize = recs.len();
    while low < high
        invariant
            low <= high <= recs.len(),
            sorted_by_hours(recs@),
            forall|i: int| 0 <= i < low ==> recs[i].hours < bound,
            forall|i: int| high <= i < recs.len() ==> recs[i].hours >= bound,
        decreases high - low,
    {
        let mid: usize = low + (high - low) / 2;
        if (recs[mid].hours as u128) < bound {
            low = mid + 1;
        } else {
            high = mid;
        }
    }
    low
}

/// The share of the recommendations played for at least `hour` hours and less
/// than `hour + 1` that recommend the game, as the two counts.
pub fn get_recommend_ratio_based_on_hours(
    recs: &Vec<Recommendation>,
    hour: u64,
    ticks_per_hour: u64,
) -> (ratio: BucketRatio)
    requires
        sorted_by_hours(recs@),
    ensures
        ratio == bucket_of(recs@, hour, ticks_per_hour),
        ratio.total == bucket_total(recs@, hour, ticks_per_hour),
        ratio.recommended == bucket_recommended(recs@, hour, ticks_per_hour),
        ratio.recommended <= ratio.total <= recs.len(),
        ratio.wf(),
        ratio.total == 0 ==> ratio.recommended == 0,
{
    assert(hour * ticks_per_hour + ticks_per_hour <= u128::MAX) by (nonlinear_arith)
        requires
            0 <= hour <= u64::MAX,
            0 <= ticks_per_hour <= u64::MAX,
    ;
    assert(0 <= hour * ticks_per_hour) by (nonlinear_arith)
        requires
            0 <= hour,
            0 <= ticks_per_hour,
    ;
    let low: u128 = (hour as u128) * (ticks_per_hour as u128);
    let high: u128 = low + (ticks_per_hour as u128);
    let start: usize = first_at_least(recs, low);
    let mut total: usize = 0;
    let mut recommended: usize = 0;
    let mut cur: usize = start;
    proof {
        lemma_skip_outside(recs@, hour, ticks_per_hour, 0, start as int);
        assert(recs@.take(0) =~= Seq::<Recommendation>::empty());
    }
    while cur < recs.len() && (recs[cur].hours as u128) < high
        invariant
            start <= cur <= recs.len(),
            low == bucket_start(hour, ticks_per_hour),
            high == low + ticks_per_hour,
            sorted_by_hours(recs@),
            forall|i: int| start <= i < recs.len() ==> recs[i].hours >= low,
            total == bucket_total(recs@.take(cur as int), hour, ticks_per_hour),
            recommended == bucket_recommended(recs@.take(cur as int), hour, ticks_per_hour),
            recommended <= total <= cur,
        decreases recs.len() - cur,
    {
        proof {
            assert(recs@.take(cur + 1).drop_last() =~= recs@.take(cur as int));
            assert(recs@.take(cur + 1).last() == recs[cur as int]);
            assert(in_bucket(recs[cur as int], hour, ticks_per_hour));
        }
        if recs[cur].is_recommended {
            recommended += 1;
        }
        total += 1;
        cur += 1;
    }
    proof {
        assert forall|i: int| cur <= i < recs.len() implies !in_bucket(
            recs[i],
            hour,
            ticks_per_hour,
        ) by {
            assert(recs[cur as int].hours <= recs[i].hours);
        }
        lemma_skip_outside(recs@, hour, ticks_per_hour, cur as int, recs.len() as int);
        assert(recs@.take(recs.len() as int) =~= recs@);
    }
    BucketRatio { hour, recommended, total }
}

/// Appends the bucket of `hour` to `series` unless no review in it recommends
/// the game.
fn push_bucket(
    series: &mut Vec<BucketRatio>,
    recs: &Vec<Recommendation>,
    hour: u64,
    ticks_per_hour: u64,
)
    requires
        sorted_by_hours(recs@),
    ensures
        final(series)@ == if bucket_of(recs@, hour, ticks_per_hour).recommended > 0 {
            old(series)@.push(bucket_of(recs@, hour, ticks_per_hour))
        } else {
            old(series)@
        },
{
    let point = get_recommend_ratio_based_on_hours(recs, hour, ticks_per_hour);
    if point.recommended > 0 {
        series.push(point);
    }
}

/// The buckets of the hours from `first_hour` to `last_hour`, both included,
/// in ascending order, without those in which no review recommends the game.
pub fn ratio_series(recs: &Vec<Recommendation>, sweep: SweepConfig) -> (series: Vec<BucketRatio>)
    requires
        sorted_by_hours(recs@),
    ensures
        series@ == series_of(
            recs@,
            sweep.first_hour as int,
            sweep.last_hour + 1,
            sweep.ticks_per_hour,
        ),
        forall|i: int| 0 <= i < series@.len() ==> (#[trigger] series@[i]).wf(),
{
    let mut series: Vec<BucketRatio> = Vec::new();
    if sweep.first_hour > sweep.last_hour {
        return series;
    }
    let mut hour: u64 = sweep.first_hour;
    while hour < sweep.last_hour
        invariant
            sweep.first_hour <= hour <= sweep.last_hour,
            sorted_by_hours(recs@),
            series@ == series_of(
                recs@,
                sweep.first_hour as int,
                hour as int,
                sweep.ticks_per_hour,
            ),
            forall|i: int| 0 <= i < series@.len() ==> (#[trigger] series@[i]).wf(),
        decreases sweep.last_hour - hour,
    {
        proof {
            assert(recs@.len() == recs.len());
            lemma_ratio_in_unit_interval(recs@, hour, sweep.ticks_per_hour);
        }
        push_bucket(&mut series, recs, hour, sweep.ticks_per_hour);
        hour += 1;
    }
    proof {
        assert(recs@.len() == recs.len());
        lemma_ratio_in_unit_interval(recs@, hour, sweep.ticks_per_hour);
    }
    push_bucket(&mut series, recs, hour, sweep.ticks_per_hour);
    series
}

} // verus!

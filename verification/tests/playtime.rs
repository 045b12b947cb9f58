use review_stats::model::{BucketRatio, Recommendation, SweepConfig};
use review_stats::playtime::{
    first_at_least, get_recommend_ratio_based_on_hours, is_sorted_by_hours, ratio_series,
    sort_by_hours,
};

fn review(hours: u64, is_recommended: bool) -> Recommendation {
    Recommendation {
        app_id: 1,
        helpful: 0,
        funny: 0,
        is_recommended,
        hours,
        user_id: 7,
        review_id: 9,
    }
}

fn rate(ratio: BucketRatio) -> f64 {
    if ratio.total == 0 {
        0.0
    } else {
        ratio.recommended as f64 / ratio.total as f64
    }
}

#[test]
fn half_hour_reviews_fall_into_the_first_bucket() {
    // 0.5 h, 0.5 h and 1.5 h, in tenths of an hour
    let recs = vec![review(5, true), review(5, false), review(15, true)];
    let first = get_recommend_ratio_based_on_hours(&recs, 0, 10);
    assert_eq!(first, BucketRatio { hour: 0, recommended: 1, total: 2 });
    assert_eq!(rate(first), 0.5);
    let second = get_recommend_ratio_based_on_hours(&recs, 1, 10);
    assert_eq!(second, BucketRatio { hour: 1, recommended: 1, total: 1 });
    assert_eq!(rate(second), 1.0);
}

#[test]
fn empty_bucket_has_rate_zero() {
    let recs = vec![review(5, true), review(35, true)];
    let ratio = get_recommend_ratio_based_on_hours(&recs, 2, 10);
    assert_eq!(ratio, BucketRatio { hour: 2, recommended: 0, total: 0 });
    assert_eq!(rate(ratio), 0.0);
    let none: Vec<Recommendation> = Vec::new();
    assert_eq!(
        get_recommend_ratio_based_on_hours(&none, 0, 10),
        BucketRatio { hour: 0, recommended: 0, total: 0 }
    );
}

#[test]
fn rate_lies_between_zero_and_one() {
    let recs = vec![
        review(0, false),
        review(3, true),
        review(9, true),
        review(10, false),
        review(19, false),
        review(20, true),
    ];
    for hour in 0..4 {
        let ratio = get_recommend_ratio_based_on_hours(&recs, hour, 10);
        assert!(ratio.recommended <= ratio.total);
        assert!(rate(ratio) >= 0.0 && rate(ratio) <= 1.0);
    }
}

#[test]
fn bucket_holds_its_start_and_not_its_end() {
    let recs = vec![review(9, false), review(10, true), review(19, true), review(20, false)];
    let ratio = get_recommend_ratio_based_on_hours(&recs, 1, 10);
    assert_eq!(ratio, BucketRatio { hour: 1, recommended: 2, total: 2 });
    let next = get_recommend_ratio_based_on_hours(&recs, 2, 10);
    assert_eq!(next, BucketRatio { hour: 2, recommended: 0, total: 1 });
}

#[test]
fn many_equal_playtimes_are_all_counted() {
    let mut recs = vec![review(1, false)];
    for i in 0..9 {
        recs.push(review(10, i % 3 == 0));
    }
    recs.push(review(25, true));
    let ratio = get_recommend_ratio_based_on_hours(&recs, 1, 10);
    assert_eq!(ratio, BucketRatio { hour: 1, recommended: 3, total: 9 });
}

#[test]
fn zero_ticks_per_hour_gives_empty_buckets() {
    let recs = vec![review(0, true), review(1, true)];
    let ratio = get_recommend_ratio_based_on_hours(&recs, 0, 0);
    assert_eq!(ratio, BucketRatio { hour: 0, recommended: 0, total: 0 });
}

#[test]
fn very_large_hours_do_not_overflow() {
    let recs = vec![review(5, true), review(u64::MAX, true)];
    let ratio = get_recommend_ratio_based_on_hours(&recs, u64::MAX, u64::MAX);
    assert_eq!(ratio.total, 0);
    let last = get_recommend_ratio_based_on_hours(&recs, u64::MAX, 1);
    assert_eq!(last, BucketRatio { hour: u64::MAX, recommended: 1, total: 1 });
}

#[test]
fn binary_search_finds_the_first_position() {
    let recs = vec![review(1, true), review(4, true), review(4, false), review(8, true)];
    assert_eq!(first_at_least(&recs, 0), 0);
    assert_eq!(first_at_least(&recs, 4), 1);
    assert_eq!(first_at_least(&recs, 5), 3);
    assert_eq!(first_at_least(&recs, 8), 3);
    assert_eq!(first_at_least(&recs, 9), 4);
    assert_eq!(first_at_least(&Vec::new(), 3), 0);
}

#[test]
fn series_leaves_out_buckets_without_recommendation() {
    let recs = vec![
        review(5, true),
        review(5, false),
        review(15, false),
        review(31, true),
        review(45, true),
    ];
    let sweep = SweepConfig { first_hour: 0, last_hour: 3, ticks_per_hour: 10 };
    let series = ratio_series(&recs, sweep);
    assert_eq!(
        series,
        vec![
            BucketRatio { hour: 0, recommended: 1, total: 2 },
            BucketRatio { hour: 3, recommended: 1, total: 1 },
        ]
    );
    let percent: Vec<(f32, f32)> =
        series.iter().map(|b| (b.hour as f32, (rate(*b) * 100.0) as f32)).collect();
    assert_eq!(percent, vec![(0.0, 50.0), (3.0, 100.0)]);
}

#[test]
fn series_includes_the_last_hour() {
    let recs = vec![review(45, true)];
    let sweep = SweepConfig { first_hour: 4, last_hour: 4, ticks_per_hour: 10 };
    assert_eq!(ratio_series(&recs, sweep), vec![BucketRatio { hour: 4, recommended: 1, total: 1 }]);
    let backwards = SweepConfig { first_hour: 5, last_hour: 4, ticks_per_hour: 10 };
    assert_eq!(ratio_series(&recs, backwards), Vec::new());
}

#[test]
fn sorting_orders_by_playtime_and_keeps_every_review() {
    let recs = vec![review(30, true), review(2, false), review(17, true), review(2, true)];
    assert!(!is_sorted_by_hours(&recs));
    let sorted = sort_by_hours(recs);
    assert!(is_sorted_by_hours(&sorted));
    let hours: Vec<u64> = sorted.iter().map(|r| r.hours).collect();
    assert_eq!(hours, vec![2, 2, 17, 30]);
    assert_eq!(sorted.iter().filter(|r| r.is_recommended).count(), 3);
}

#[test]
fn sortedness_check_accepts_short_and_equal_runs() {
    assert!(is_sorted_by_hours(&Vec::new()));
    assert!(is_sorted_by_hours(&vec![review(3, true)]));
    assert!(is_sorted_by_hours(&vec![review(3, true), review(3, false), review(4, true)]));
    assert!(!is_sorted_by_hours(&vec![review(3, true), review(5, false), review(4, true)]));
}

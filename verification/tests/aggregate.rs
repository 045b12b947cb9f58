use std::collections::HashMap;

use review_stats::aggregate::{
    all_games_known, average_by_label, find_label, get_description_word_average_rating,
    get_tag_average_rating, group_by_label, keep_frequent, rating_of, record_labels,
    tag_labels_of, tag_observations, word_observations,
};
use review_stats::chart::{tag_chart_data, word_chart_data, ChartError};
use review_stats::model::{AggregateScore, Game, GameMetadata, Observation};

fn game(app_id: usize, positive_ratio: u8) -> Game {
    Game {
        app_id,
        title: format!("game {}", app_id),
        win: true,
        mac: false,
        linux: false,
        rating: "Positive".to_string(),
        positive_ratio,
        user_reviews: 10,
        steam_deck: true,
    }
}

fn catalogue(ratings: &[(usize, u8)]) -> HashMap<usize, Game> {
    ratings.iter().map(|&(id, r)| (id, game(id, r))).collect()
}

fn meta(app_id: usize, description: &str, tags: &[&str]) -> GameMetadata {
    GameMetadata {
        app_id,
        description: description.to_string(),
        tags: tags.iter().map(|t| t.to_string()).collect(),
    }
}

fn obs(label: &str, rating: u8) -> Observation {
    Observation { label: label.to_string(), rating }
}

fn triples(entries: &[AggregateScore]) -> Vec<(String, u128, usize)> {
    entries.iter().map(|e| (e.label.clone(), e.sum, e.count)).collect()
}

fn pairs(entries: &[Observation]) -> Vec<(String, u8)> {
    entries.iter().map(|o| (o.label.clone(), o.rating)).collect()
}

fn mean(e: &AggregateScore) -> f32 {
    e.sum as f32 / e.count as f32
}

#[test]
fn shared_tag_averages_both_games() {
    let games = catalogue(&[(1, 80), (2, 60)]);
    let metadata = vec![meta(1, "", &["RPG"]), meta(2, "", &["RPG"])];
    let averages = get_tag_average_rating(&games, &metadata, 2);
    assert_eq!(triples(&averages), vec![("rpg".to_string(), 140, 2)]);
    assert_eq!(mean(&averages[0]), 70.0);
}

#[test]
fn tag_seen_too_seldom_is_absent() {
    let games = catalogue(&[(1, 80), (2, 60)]);
    let metadata = vec![meta(1, "", &["RPG"]), meta(2, "", &["RPG"])];
    let averages = get_tag_average_rating(&games, &metadata, 3);
    assert!(averages.is_empty());
}

#[test]
fn tags_that_differ_in_case_are_one_group() {
    let games = catalogue(&[(1, 90), (2, 50), (3, 10)]);
    let metadata = vec![
        meta(1, "", &["Action"]),
        meta(2, "", &["action", "Indie"]),
        meta(3, "", &["ACTION"]),
    ];
    let averages = get_tag_average_rating(&games, &metadata, 1);
    assert_eq!(
        triples(&averages),
        vec![("action".to_string(), 150, 3), ("indie".to_string(), 50, 1)]
    );
    assert_eq!(mean(&averages[0]), 50.0);
}

#[test]
fn tag_repeated_on_one_game_counts_each_time() {
    let games = catalogue(&[(1, 40), (2, 100)]);
    let metadata = vec![meta(1, "", &["Puzzle", "puzzle"]), meta(2, "", &["Puzzle"])];
    let averages = get_tag_average_rating(&games, &metadata, 1);
    assert_eq!(triples(&averages), vec![("puzzle".to_string(), 180, 3)]);
    assert_eq!(mean(&averages[0]), 60.0);
}

#[test]
fn average_is_sum_over_count() {
    let observations = vec![obs("a", 10), obs("b", 7), obs("a", 31), obs("a", 100), obs("b", 8)];
    let averages = average_by_label(&observations, 1);
    assert_eq!(triples(&averages), vec![("a".to_string(), 141, 3), ("b".to_string(), 15, 2)]);
    assert_eq!(mean(&averages[0]), 47.0);
    assert_eq!(mean(&averages[1]), 7.5);
}

#[test]
fn threshold_counts_observations() {
    let observations = vec![obs("a", 10), obs("b", 7), obs("a", 31), obs("c", 1), obs("a", 100)];
    assert_eq!(triples(&average_by_label(&observations, 3)), vec![("a".to_string(), 141, 3)]);
    assert!(average_by_label(&observations, 4).is_empty());
    assert_eq!(average_by_label(&observations, 0).len(), 3);
    assert!(average_by_label(&Vec::new(), 0).is_empty());
}

#[test]
fn groups_come_in_order_of_first_occurrence() {
    let observations = vec![obs("z", 1), obs("m", 2), obs("z", 3), obs("a", 4)];
    let groups = group_by_label(&observations);
    assert_eq!(
        triples(&groups),
        vec![("z".to_string(), 4, 2), ("m".to_string(), 2, 1), ("a".to_string(), 4, 1)]
    );
    assert_eq!(find_label(&groups, &"m".to_string()), Some(1));
    assert_eq!(find_label(&groups, &"q".to_string()), None);
    assert_eq!(triples(&keep_frequent(&groups, 2)), vec![("z".to_string(), 4, 2)]);
}

#[test]
fn highest_ratings_sum_without_loss() {
    let observations: Vec<Observation> = (0..1000).map(|_| obs("top", 255)).collect();
    let averages = average_by_label(&observations, 1000);
    assert_eq!(triples(&averages), vec![("top".to_string(), 255_000, 1000)]);
}

#[test]
fn word_repeated_in_a_description_counts_once() {
    let games = catalogue(&[(1, 80), (2, 20)]);
    let metadata = vec![meta(1, "fun fun FUN game", &[]), meta(2, "Fun.", &[])];
    let averages = get_description_word_average_rating(&games, &metadata, 1);
    assert_eq!(
        triples(&averages),
        vec![("fun".to_string(), 100, 2), ("game".to_string(), 80, 1)]
    );
    assert_eq!(mean(&averages[0]), 50.0);
}

#[test]
fn word_observations_hold_each_distinct_word() {
    let games = catalogue(&[(5, 33)]);
    let metadata = vec![meta(5, "Fast-paced! action, ACTION.", &["x"])];
    let observations = word_observations(&games, &metadata);
    assert_eq!(
        pairs(&observations),
        vec![("fastpaced".to_string(), 33), ("action".to_string(), 33)]
    );
}

#[test]
fn tag_observations_follow_the_metadata() {
    let games = catalogue(&[(1, 80), (2, 60)]);
    let metadata = vec![meta(2, "", &["B", "a"]), meta(1, "", &[]), meta(2, "", &["A"])];
    let observations = tag_observations(&games, &metadata);
    assert_eq!(
        pairs(&observations),
        vec![("b".to_string(), 60), ("a".to_string(), 60), ("a".to_string(), 60)]
    );
    assert_eq!(tag_labels_of(&metadata[0].tags), vec!["b".to_string(), "a".to_string()]);
}

#[test]
fn labels_are_recorded_after_what_is_there() {
    let mut observations = vec![obs("first", 1)];
    record_labels(&mut observations, &vec!["x".to_string(), "y".to_string()], 9);
    assert_eq!(
        pairs(&observations),
        vec![("first".to_string(), 1), ("x".to_string(), 9), ("y".to_string(), 9)]
    );
}

#[test]
fn unknown_game_is_detected() {
    let games = catalogue(&[(1, 80)]);
    assert!(all_games_known(&games, &vec![meta(1, "", &[])]));
    assert!(!all_games_known(&games, &vec![meta(1, "", &[]), meta(2, "", &[])]));
    assert!(all_games_known(&games, &Vec::new()));
    assert_eq!(rating_of(&games, 1), 80);
    assert!(game(1, 100).is_wf());
    assert!(!game(1, 101).is_wf());
}

#[test]
fn tag_chart_has_lowest_then_highest() {
    let games = catalogue(&[(1, 10), (2, 50), (3, 90), (4, 70)]);
    let metadata = vec![
        meta(1, "", &["Bad"]),
        meta(2, "", &["Mid"]),
        meta(3, "", &["Good"]),
        meta(4, "", &["Fine", "once"]),
        meta(4, "", &["fine"]),
        meta(1, "", &["bad"]),
        meta(2, "", &["mid"]),
        meta(3, "", &["good"]),
    ];
    let bars = tag_chart_data(&games, &metadata, 1, 2, 2).unwrap();
    assert_eq!(
        triples(&bars),
        vec![("bad".to_string(), 20, 2), ("mid".to_string(), 100, 2), ("good".to_string(), 180, 2)]
    );
    assert_eq!(tag_chart_data(&games, &metadata, 5, 1, 2).err(), Some(ChartError::TooFewScores));
    assert_eq!(tag_chart_data(&games, &metadata, 1, 5, 2).err(), Some(ChartError::TooFewScores));
    assert!(tag_chart_data(&games, &metadata, 5, 5, 1).is_ok());
}

#[test]
fn word_chart_has_lowest_then_highest() {
    let games = catalogue(&[(1, 10), (2, 90)]);
    let metadata = vec![meta(1, "dull grey game", &[]), meta(2, "bright game", &[])];
    let bars = word_chart_data(&games, &metadata, 1, 1, 1).unwrap();
    assert_eq!(triples(&bars), vec![("dull".to_string(), 10, 1), ("bright".to_string(), 90, 1)]);
    assert_eq!(word_chart_data(&games, &metadata, 1, 1, 3).err(), Some(ChartError::TooFewScores));
}

#[test]
fn chart_of_an_unknown_game_is_refused() {
    let games = catalogue(&[(1, 10)]);
    let metadata = vec![meta(1, "one", &["One"]), meta(2, "two", &["Two"])];
    assert_eq!(tag_chart_data(&games, &metadata, 0, 0, 1).err(), Some(ChartError::UnknownGame));
    assert_eq!(word_chart_data(&games, &metadata, 0, 0, 1).err(), Some(ChartError::UnknownGame));
    assert_eq!(tag_chart_data(&games, &metadata, 9, 9, 1).err(), Some(ChartError::UnknownGame));
}

//! What the two bar charts show: the lowest and the highest average ratings
//! per tag and per description word.

use std::collections::HashMap;
use vstd::prelude::*;
use crate::aggregate::{
    all_games_known, all_known, averages_of, by_tag, by_word,
    get_description_word_average_rating, get_tag_average_rating, observations_of, scores,
};
use crate::model::{AggregateScore, Game, GameMetadata, ScoreModel};
use crate::rank::{extremes, is_ranking, rank_checked, sorted_by_mean};

verus! {

/// Why a chart has no bars.
#[derive(Clone, Copy, Debug, PartialEq, Eq, Structural)]
pub enum ChartError {
    /// The metadata name a game that the catalogue lacks.
    UnknownGame,
    /// Fewer labels are left than the chart is to show at one of its ends.
    TooFewScores,
}

/// `out` holds the `bottom` lowest and the `top` highest of the scores
/// `averages`, each part in ascending order of the averages.
pub open spec fn is_chart_of(
    averages: Seq<ScoreModel>,
    top: int,
    bottom: int,
    out: Seq<AggregateScore>,
) -> bool {
    exists|entries: Seq<AggregateScore>, s: Seq<AggregateScore>|
        scores(entries) == averages && #[trigger] is_ranking(entries, s) && out == extremes(
            s,
            top,
            bottom,
        )
}

/// What a chart of the labels that `extract` takes is: an error where a game
/// is unknown or too few labels have `min_appearance` ratings, else the
/// `bottom` lowest and the `top` highest scores.
pub open spec fn is_chart_result(
    games: Map<usize, Game>,
    metadata: Seq<GameMetadata>,
    extract: spec_fn(GameMetadata) -> Seq<Seq<char>>,
    top: int,
    bottom: int,
    min_appearance: nat,
    bars: Result<Vec<AggregateScore>, ChartError>,
) -> bool {
    let averages = averages_of(observations_of(games, metadata, extract), min_appearance);
    if !all_known(games, metadata) {
        bars == Err::<Vec<AggregateScore>, ChartError>(ChartError::UnknownGame)
    } else if top > averages.len() || bottom > averages.len() {
        bars == Err::<Vec<AggregateScore>, ChartError>(ChartError::TooFewScores)
    } else {
        &&& bars matches Ok(out)
        &&& out@.len() == bottom + top
        &&& is_chart_of(averages, top, bottom, out@)
        &&& bottom + top <= averages.len() + 1 ==> sorted_by_mean(out@)
    }
}

/// The chart of scores already averaged.
fn chart_of_averages(averages: &Vec<AggregateScore>, top_count: usize, bottom_count: usize) -> (bars:
    Result<Vec<AggregateScore>, ChartError>)
    ensures
        if top_count > averages.len() || bottom_count > averages.len() {
            bars == Err::<Vec<AggregateScore>, ChartError>(ChartError::TooFewScores)
        } else {
            &&& bars matches Ok(out)
            &&& out@.len() == bottom_count + top_count
            &&& is_chart_of(scores(averages@), top_count as int, bottom_count as int, out@)
            &&& bottom_count + top_count <= averages.len() + 1 ==> sorted_by_mean(out@)
        },
{
    match rank_checked(averages, top_count, bottom_count) {
        Some(out) => {
            proof {
                let s = choose|s: Seq<AggregateScore>| #[trigger]
                    is_ranking(averages@, s) && out@ == extremes(
                        s,
                        top_count as int,
                        bottom_count as int,
                    );
                assert(scores(averages@) == scores(averages@) && is_ranking(averages@, s));
            }
            Ok(out)
        },
        None => Err(ChartError::TooFewScores),
    }
}

/// The bars of the tag chart: of the tags with at least `min_appearance`
/// ratings the `bottom_count` with the lowest average rating, then the
/// `top_count` with the highest, each part in ascending order.
pub fn tag_chart_data(
    games: &HashMap<usize, Game>,
    metadata: &Vec<GameMetadata>,
    top_count: usize,
    bottom_count: usize,
    min_appearance: usize,
) -> (bars: Result<Vec<AggregateScore>, ChartError>)
    ensures
        is_chart_result(
            games@,
            metadata@,
            by_tag(),
            top_count as int,
            bottom_count as int,
            min_appearance as nat,
            bars,
        ),
{
    if !all_games_known(games, metadata) {
        return Err(ChartError::UnknownGame);
    }
    let averages = get_tag_average_rating(games, metadata, min_appearance);
    assert(scores(averages@).len() == averages@.len());
    chart_of_averages(&averages, top_count, bottom_count)
}

/// The bars of the word chart: of the words in the descriptions of at least
/// `min_appearance` games the `bottom_count` with the lowest average rating,
/// then the `top_count` with the highest, each part in ascending order.
pub fn word_chart_data(
    games: &HashMap<usize, Game>,
    metadata: &Vec<GameMetadata>,
    top_count: usize,
    bottom_count: usize,
    min_appearance: usize,
) -> (bars: Result<Vec<AggregateScore>, ChartError>)
    ensures
        is_chart_result(
            games@,
            metadata@,
            by_word(),
            top_count as int,
            bottom_count as int,
            min_appearance as nat,
            bars,
        ),
{
    if !all_games_known(games, metadata) {
        return Err(ChartError::UnknownGame);
    }
    let averages = get_description_word_average_rating(games, metadata, min_appearance);
    assert(scores(averages@).len() == averages@.len());
    chart_of_averages(&averages, top_count, bottom_count)
}

} // verus!

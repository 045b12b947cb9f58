//! The records the statistics are computed from, and the values they produce.

use vstd::prelude::*;

verus! {

/// A game of the catalogue. Only `app_id` and `positive_ratio` are read by the
/// statistics; the other fields are carried along.
#[derive(Clone, Debug)]
pub struct Game {
    pub app_id: usize,
    pub title: String,
    pub win: bool,
    pub mac: bool,
    pub linux: bool,
    pub rating: String,
    /// Share of positive reviews, in percent.
    pub positive_ratio: u8,
    pub user_reviews: usize,
    pub steam_deck: bool,
}

impl Game {
    /// The positive rating is a percentage.
    pub open spec fn wf(&self) -> bool {
        self.positive_ratio <= 100
    }

    /// Whether the positive rating is a percentage.
    pub fn is_wf(&self) -> (r: bool)
        ensures
            r == self.wf(),
    {
        self.positive_ratio <= 100
    }
}

/// The description and the tags of one game, found by `app_id`.
#[derive(Clone, Debug)]
pub struct GameMetadata {
    pub app_id: usize,
    pub description: String,
    pub tags: Vec<String>,
}

/// One user review. `hours` is the reported playtime in ticks, a fixed
/// fraction of an hour that the caller chooses.
#[derive(Clone, Copy, Debug)]
pub struct Recommendation {
    pub app_id: usize,
    pub helpful: usize,
    pub funny: usize,
    pub is_recommended: bool,
    pub hours: u64,
    pub user_id: usize,
    pub review_id: usize,
}

/// One rating recorded against a label (a tag or a word).
#[derive(Clone, Debug)]
pub struct Observation {
    pub label: String,
    pub rating: u8,
}

impl View for Observation {
    type V = (Seq<char>, u8);

    open spec fn view(&self) -> (Seq<char>, u8) {
        (self.label@, self.rating)
    }
}

/// What an `AggregateScore` stands for: a label, the sum of the ratings
/// recorded against it and their number.
pub struct ScoreModel {
    pub label: Seq<char>,
    pub sum: nat,
    pub count: nat,
}

/// The ratings of one label, summed. The average is `sum / count`.
#[derive(Clone, Debug)]
pub struct AggregateScore {
    pub label: String,
    pub sum: u128,
    pub count: usize,
}

impl View for AggregateScore {
    type V = ScoreModel;

    open spec fn view(&self) -> ScoreModel {
        ScoreModel { label: self.label@, sum: self.sum as nat, count: self.count as nat }
    }
}

impl AggregateScore {
    /// A copy of this score.
    pub fn duplicate(&self) -> (r: AggregateScore)
        ensures
            r == *self,
    {
        AggregateScore { label: self.label.clone(), sum: self.sum, count: self.count }
    }
}

/// The recommendations of one hour of playtime: how many fall into it and how
/// many of those recommend the game. The rate is `recommended / total`, and 0
/// where `total` is 0.
#[derive(Clone, Copy, Debug, PartialEq, Eq, Structural)]
pub struct BucketRatio {
    pub hour: u64,
    pub recommended: usize,
    pub total: usize,
}

impl BucketRatio {
    /// The rate lies between 0 and 1.
    pub open spec fn wf(&self) -> bool {
        self.recommended <= self.total
    }
}

/// Which hours a sweep visits, and how many ticks make an hour.
#[derive(Clone, Copy, Debug, PartialEq, Eq, Structural)]
pub struct SweepConfig {
    pub first_hour: u64,
    pub last_hour: u64,
    pub ticks_per_hour: u64,
}

} // verus!

//! Average positive rating per label: the ratings of the games are recorded
//! against the labels taken from their metadata, summed per label, and the
//! labels seen too seldom are left out.

use std::collections::HashMap;
use vstd::prelude::*;
use vstd::std_specs::hash::*;
use crate::model::{AggregateScore, Game, GameMetadata, Observation, ScoreModel};
use crate::text::{
    description_words, distinct, kept, lemma_distinct_generic, lowercase_of, normalize_tag,
    split_on_space, texts, words_of,
};

verus! {

/// What a sequence of observations records: label and rating, in order.
pub open spec fn observed(obs: Seq<Observation>) -> Seq<(Seq<char>, u8)> {
    obs.map_values(|o: Observation| o@)
}

/// What a sequence of scores stands for.
pub open spec fn scores(entries: Seq<AggregateScore>) -> Seq<ScoreModel> {
    entries.map_values(|e: AggregateScore| e@)
}

/// The labels of the observations, in order.
pub open spec fn labels_of(obs: Seq<(Seq<char>, u8)>) -> Seq<Seq<char>> {
    obs.map_values(|o: (Seq<char>, u8)| o.0)
}

/// Number of ratings recorded against `label`.
pub open spec fn label_count(obs: Seq<(Seq<char>, u8)>, label: Seq<char>) -> nat
    decreases obs.len(),
{
    if obs.len() == 0 {
        0
    } else {
        label_count(obs.drop_last(), label) + if obs.last().0 == label {
            1nat
        } else {
            0nat
        }
    }
}

/// Sum of the ratings recorded against `label`.
pub open spec fn label_sum(obs: Seq<(Seq<char>, u8)>, label: Seq<char>) -> nat
    decreases obs.len(),
{
    if obs.len() == 0 {
        0
    } else {
        label_sum(obs.drop_last(), label) + if obs.last().0 == label {
            obs.last().1 as nat
        } else {
            0nat
        }
    }
}

/// The score of `label`: the sum and the number of its ratings.
pub open spec fn score_of(obs: Seq<(Seq<char>, u8)>, label: Seq<char>) -> ScoreModel {
    ScoreModel { label, sum: label_sum(obs, label), count: label_count(obs, label) }
}

/// One score per label, in the order in which the labels first occur.
pub open spec fn groups_of(obs: Seq<(Seq<char>, u8)>) -> Seq<ScoreModel> {
    distinct(labels_of(obs)).map_values(|l: Seq<char>| score_of(obs, l))
}

/// A score with at least `min_appearance` ratings.
pub open spec fn frequent(min_appearance: nat) -> spec_fn(ScoreModel) -> bool {
    |g: ScoreModel| g.count >= min_appearance
}

/// The scores of the labels with at least `min_appearance` ratings, in the
/// order in which the labels first occur.
pub open spec fn averages_of(obs: Seq<(Seq<char>, u8)>, min_appearance: nat) -> Seq<ScoreModel> {
    groups_of(obs).filter(frequent(min_appearance))
}

/// Every game that the metadata names is in the catalogue.
pub open spec fn all_known(games: Map<usize, Game>, metadata: Seq<GameMetadata>) -> bool {
    forall|i: int| 0 <= i < metadata.len() ==> games.contains_key((#[trigger] metadata[i]).app_id)
}

/// `rating` recorded against each of `labels`.
pub open spec fn recorded(labels: Seq<Seq<char>>, rating: u8) -> Seq<(Seq<char>, u8)> {
    labels.map_values(|l: Seq<char>| (l, rating))
}

/// The labels that the tags give: each tag in lower case, repeated tags
/// repeated.
pub open spec fn tag_labels(tags: Seq<String>) -> Seq<Seq<char>> {
    tags.map_values(|t: String| lowercase_of(t@))
}

/// Takes the tag labels of a game.
pub open spec fn by_tag() -> spec_fn(GameMetadata) -> Seq<Seq<char>> {
    |m: GameMetadata| tag_labels(m.tags@)
}

/// Takes the distinct words of a game's description.
pub open spec fn by_word() -> spec_fn(GameMetadata) -> Seq<Seq<char>> {
    |m: GameMetadata| words_of(m.description@)
}

/// The observations that the metadata give: for each game in turn, its
/// positive rating against each label that `extract` takes from it.
pub open spec fn observations_of(
    games: Map<usize, Game>,
    metadata: Seq<GameMetadata>,
    extract: spec_fn(GameMetadata) -> Seq<Seq<char>>,
) -> Seq<(Seq<char>, u8)>
    decreases metadata.len(),
{
    if metadata.len() == 0 {
        Seq::empty()
    } else {
        observations_of(games, metadata.drop_last(), extract) + recorded(
            extract(metadata.last()),
            games[metadata.last().app_id].positive_ratio,
        )
    }
}

/// A label that no observation carries has no rating.
pub proof fn lemma_unseen_label(obs: Seq<(Seq<char>, u8)>, label: Seq<char>)
    requires
        !labels_of(obs).contains(label),
    ensures
        label_count(obs, label) == 0,
        label_sum(obs, label) == 0,
    decreases obs.len(),
{
    if obs.len() > 0 {
        assert(labels_of(obs)[obs.len() - 1] == obs.last().0);
        assert forall|i: int| 0 <= i < obs.len() - 1 implies labels_of(obs.drop_last())[i]
            != label by {
            assert(labels_of(obs)[i] == obs[i].0);
        }
        lemma_unseen_label(obs.drop_last(), label);
    }
}

/// Where no rating is above `cap`, no sum is above `cap` times the number of
/// its ratings: the average of a label is at most `cap`. No label has more
/// ratings than there are observations.
pub proof fn lemma_average_at_most(obs: Seq<(Seq<char>, u8)>, label: Seq<char>, cap: nat)
    requires
        forall|i: int| 0 <= i < obs.len() ==> (#[trigger] obs[i]).1 <= cap,
    ensures
        label_sum(obs, label) <= cap * label_count(obs, label),
        label_count(obs, label) <= obs.len(),
    decreases obs.len(),
{
    if obs.len() > 0 {
        lemma_average_at_most(obs.drop_last(), label, cap);
        assert(obs.last() == obs[obs.len() - 1]);
        assert(cap * (label_count(obs.drop_last(), label) + 1) == cap * label_count(
            obs.drop_last(),
            label,
        ) + cap) by (nonlinear_arith);
    }
}

/// Position of the score of `label` among `groups`, if it has one.
pub fn find_label(groups: &Vec<AggregateScore>, label: &String) -> (at: Option<usize>)
    ensures
        match at {
            Some(j) => j < groups.len() && groups@[j as int].label@ == label@,
            None => forall|i: int| 0 <= i < groups.len() ==> groups@[i].label@ != label@,
        },
{
    let mut j: usize = 0;
    while j < groups.len()
        invariant
            j <= groups.len(),
            forall|i: int| 0 <= i < j ==> groups@[i].label@ != label@,
        decreases groups.len() - j,
    {
        if groups[j].label == *label {
            return Some(j);
        }
        j += 1;
    }
    None
}

/// One score per label of `obs`, in the order in which the labels first
/// occur: the sum and the number of the ratings recorded against the label.
pub fn group_by_label(obs: &Vec<Observation>) -> (groups: Vec<AggregateScore>)
    ensures
        scores(groups@) == groups_of(observed(obs@)),
{
    let mut groups: Vec<AggregateScore> = Vec::new();
    let mut k: usize = 0;
    let ghost all = observed(obs@);
    proof {
        assert(all.take(0) =~= Seq::<(Seq<char>, u8)>::empty());
        assert(labels_of(all.take(0)) =~= Seq::<Seq<char>>::empty());
        assert(scores(groups@) =~= groups_of(all.take(0)));
    }
    while k < obs.len()
        invariant
            k <= obs.len(),
            all == observed(obs@),
            scores(groups@) == groups_of(all.take(k as int)),
            forall|i: int|
                0 <= i < groups.len() ==> (#[trigger] groups@[i]).count <= k && groups@[i].sum
                    <= 255 * groups@[i].count,
        decreases obs.len() - k,
    {
        let ghost seen = all.take(k as int);
        let ghost next = all.take(k + 1);
        let ghost names = distinct(labels_of(seen));
        let ghost before = groups@;
        let label = &obs[k].label;
        let rating: u8 = obs[k].rating;
        proof {
            assert(next.drop_last() =~= seen);
            assert(next.last() == (label@, rating));
            assert(labels_of(next).drop_last() =~= labels_of(seen));
            assert(labels_of(next).last() == label@);
            lemma_distinct_generic(labels_of(seen));
            assert(scores(before).len() == before.len());
            assert(groups_of(seen).len() == names.len());
            assert forall|i: int| 0 <= i < before.len() implies before[i].label@
                == #[trigger] names[i] by {
                assert(scores(before)[i] == before[i]@);
            }
        }
        match find_label(&groups, label) {
            Some(j) => {
                let updated = AggregateScore {
                    label: groups[j].label.clone(),
                    sum: groups[j].sum + rating as u128,
                    count: groups[j].count + 1,
                };
                groups.set(j, updated);
                proof {
                    assert(names[j as int] == label@);
                    assert(names.contains(label@));
                    assert(distinct(labels_of(next)) == names);
                    assert(scores(before)[j as int] == before[j as int]@);
                    assert forall|i: int| 0 <= i < names.len() implies scores(groups@)[i]
                        == score_of(next, names[i]) by {
                        assert(scores(before)[i] == before[i]@);
                        assert(scores(before)[i] == score_of(seen, names[i]));
                        if i != j {
                            assert(names[i] != names[j as int]);
                        }
                    }
                    assert(scores(groups@) =~= groups_of(next));
                }
            },
            None => {
                groups.push(AggregateScore { label: label.clone(), sum: rating as u128, count: 1 });
                proof {
                    assert(!names.contains(label@));
                    assert(!labels_of(seen).contains(label@));
                    lemma_unseen_label(seen, label@);
                    assert(distinct(labels_of(next)) == names.push(label@));
                    assert forall|i: int| 0 <= i < names.len() + 1 implies scores(groups@)[i]
                        == score_of(next, names.push(label@)[i]) by {
                        if i < names.len() {
                            assert(scores(before)[i] == before[i]@);
                            assert(scores(before)[i] == score_of(seen, names[i]));
                            assert(names[i] != label@);
                        }
                    }
                    assert(scores(groups@) =~= groups_of(next));
                }
            },
        }
        k += 1;
    }
    proof {
        assert(all.take(k as int) =~= all);
    }
    groups
}

/// The scores of `groups` with at least `min_appearance` ratings, in order.
pub fn keep_frequent(groups: &Vec<AggregateScore>, min_appearance: usize) -> (kept: Vec<
    AggregateScore,
>)
    ensures
        scores(kept@) == scores(groups@).filter(frequent(min_appearance as nat)),
{
    let mut kept: Vec<AggregateScore> = Vec::new();
    let mut k: usize = 0;
    proof {
        reveal(Seq::filter);
        assert(scores(groups@).take(0) =~= Seq::<ScoreModel>::empty());
        assert(scores(kept@) =~= Seq::<ScoreModel>::empty());
    }
    while k < groups.len()
        invariant
            k <= groups.len(),
            scores(kept@) == scores(groups@).take(k as int).filter(
                frequent(min_appearance as nat),
            ),
        decreases groups.len() - k,
    {
        let ghost before = scores(kept@);
        proof {
            reveal(Seq::filter);
            assert(scores(groups@).take(k + 1).drop_last() =~= scores(groups@).take(k as int));
            assert(scores(groups@).take(k + 1).last() == groups@[k as int]@);
            assert(frequent(min_appearance as nat)(groups@[k as int]@) == (groups@[k as int].count
                >= min_appearance));
        }
        if groups[k].count >= min_appearance {
            kept.push(groups[k].duplicate());
            proof {
                assert(scores(kept@) =~= before.push(groups@[k as int]@));
            }
        }
        k += 1;
    }
    proof {
        assert(scores(groups@).take(k as int) =~= scores(groups@));
    }
    kept
}

/// The score of every label of `obs` with at least `min_appearance` ratings,
/// in the order in which the labels first occur.
pub fn average_by_label(obs: &Vec<Observation>, min_appearance: usize) -> (averages: Vec<
    AggregateScore,
>)
    ensures
        scores(averages@) == averages_of(observed(obs@), min_appearance as nat),
{
    let groups = group_by_label(obs);
    keep_frequent(&groups, min_appearance)
}

/// Whether every game that the metadata names is in the catalogue.
pub fn all_games_known(games: &HashMap<usize, Game>, metadata: &Vec<GameMetadata>) -> (known: bool)
    ensures
        known == all_known(games@, metadata@),
{
    broadcast use group_hash_axioms;

    let mut i: usize = 0;
    while i < metadata.len()
        invariant
            i <= metadata.len(),
            forall|k: int| 0 <= k < i ==> games@.contains_key((#[trigger] metadata@[k]).app_id),
        decreases metadata.len() - i,
    {
        if !games.contains_key(&metadata[i].app_id) {
            assert(!games@.contains_key(metadata@[i as int].app_id));
            return false;
        }
        i += 1;
    }
    true
}

/// The positive rating of the game `app_id`.
pub fn rating_of(games: &HashMap<usize, Game>, app_id: usize) -> (rating: u8)
    requires
        games@.contains_key(app_id),
    ensures
        rating == games@[app_id].positive_ratio,
{
    broadcast use group_hash_axioms;

    let game = games.get(&app_id);
    game.unwrap().positive_ratio
}

/// Records `rating` against each of `labels`, after what `obs` holds.
pub fn record_labels(obs: &mut Vec<Observation>, labels: &Vec<String>, rating: u8)
    ensures
        observed(final(obs)@) == observed(old(obs)@) + recorded(texts(labels@), rating),
{
    let ghost start = observed(obs@);
    let mut i: usize = 0;
    proof {
        assert(recorded(texts(labels@), rating).take(0) =~= Seq::<(Seq<char>, u8)>::empty());
        assert(start + Seq::<(Seq<char>, u8)>::empty() =~= start);
    }
    while i < labels.len()
        invariant
            i <= labels.len(),
            observed(obs@) == start + recorded(texts(labels@), rating).take(i as int),
        decreases labels.len() - i,
    {
        let ghost before = observed(obs@);
        obs.push(Observation { label: labels[i].clone(), rating });
        proof {
            assert(observed(obs@) =~= before.push((labels@[i as int]@, rating)));
            assert(recorded(texts(labels@), rating).take(i + 1) =~= recorded(
                texts(labels@),
                rating,
            ).take(i as int).push((labels@[i as int]@, rating)));
            assert(observed(obs@) =~= start + recorded(texts(labels@), rating).take(i + 1));
        }
        i += 1;
    }
    proof {
        assert(recorded(texts(labels@), rating).take(i as int) =~= recorded(
            texts(labels@),
            rating,
        ));
    }
}

/// The labels of the tags: each tag in lower case, in order, repeated tags
/// repeated.
pub fn tag_labels_of(tags: &Vec<String>) -> (labels: Vec<String>)
    ensures
        texts(labels@) == tag_labels(tags@),
{
    let mut labels: Vec<String> = Vec::new();
    let mut i: usize = 0;
    while i < tags.len()
        invariant
            i <= tags.len(),
            texts(labels@) =~= tag_labels(tags@).take(i as int),
        decreases tags.len() - i,
    {
        let ghost before = texts(labels@);
        labels.push(normalize_tag(tags[i].as_str()));
        proof {
            assert(texts(labels@) =~= before.push(lowercase_of(tags@[i as int]@)));
        }
        i += 1;
    }
    proof {
        assert(tag_labels(tags@).take(i as int) =~= tag_labels(tags@));
    }
    labels
}

/// The positive rating of each game against each of its tags, in the order of
/// the metadata.
pub fn tag_observations(games: &HashMap<usize, Game>, metadata: &Vec<GameMetadata>) -> (obs: Vec<
    Observation,
>)
    requires
        all_known(games@, metadata@),
    ensures
        observed(obs@) == observations_of(games@, metadata@, by_tag()),
{
    let mut obs: Vec<Observation> = Vec::new();
    let mut i: usize = 0;
    proof {
        assert(metadata@.take(0) =~= Seq::<GameMetadata>::empty());
        assert(observed(obs@) =~= Seq::<(Seq<char>, u8)>::empty());
    }
    while i < metadata.len()
        invariant
            i <= metadata.len(),
            all_known(games@, metadata@),
            observed(obs@) == observations_of(games@, metadata@.take(i as int), by_tag()),
        decreases metadata.len() - i,
    {
        proof {
            assert(metadata@.take(i + 1).drop_last() =~= metadata@.take(i as int));
            assert(metadata@.take(i + 1).last() == metadata@[i as int]);
            assert(by_tag()(metadata@[i as int]) == tag_labels(metadata@[i as int].tags@));
        }
        let rating: u8 = rating_of(games, metadata[i].app_id);
        let labels = tag_labels_of(&metadata[i].tags);
        record_labels(&mut obs, &labels, rating);
        i += 1;
    }
    proof {
        assert(metadata@.take(i as int) =~= metadata@);
    }
    obs
}

/// The positive rating of each game against each distinct word of its
/// description, in the order of the metadata.
pub fn word_observations(games: &HashMap<usize, Game>, metadata: &Vec<GameMetadata>) -> (obs: Vec<
    Observation,
>)
    requires
        all_known(games@, metadata@),
    ensures
        observed(obs@) == observations_of(games@, metadata@, by_word()),
{
    let mut obs: Vec<Observation> = Vec::new();
    let mut i: usize = 0;
    proof {
        assert(metadata@.take(0) =~= Seq::<GameMetadata>::empty());
        assert(observed(obs@) =~= Seq::<(Seq<char>, u8)>::empty());
    }
    while i < metadata.len()
        invariant
            i <= metadata.len(),
            all_known(games@, metadata@),
            observed(obs@) == observations_of(games@, metadata@.take(i as int), by_word()),
        decreases metadata.len() - i,
    {
        proof {
            assert(metadata@.take(i + 1).drop_last() =~= metadata@.take(i as int));
            assert(metadata@.take(i + 1).last() == metadata@[i as int]);
            assert(by_word()(metadata@[i as int]) == words_of(metadata@[i as int].description@));
        }
        let rating: u8 = rating_of(games, metadata[i].app_id);
        let labels = description_words(metadata[i].description.as_str());
        record_labels(&mut obs, &labels, rating);
        i += 1;
    }
    proof {
        assert(metadata@.take(i as int) =~= metadata@);
    }
    obs
}

/// The score of every tag, in lower case, that at least `min_appearance`
/// ratings were recorded against: each game's positive rating counts once for
/// each of its tags.
pub fn get_tag_average_rating(
    games: &HashMap<usize, Game>,
    metadata: &Vec<GameMetadata>,
    min_appearance: usize,
) -> (averages: Vec<AggregateScore>)
    requires
        all_known(games@, metadata@),
    ensures
        scores(averages@) == averages_of(
            observations_of(games@, metadata@, by_tag()),
            min_appearance as nat,
        ),
{
    let obs = tag_observations(games, metadata);
    average_by_label(&obs, min_appearance)
}

/// The score of every word that the descriptions of at least
/// `min_appearance` games hold: each game's positive rating counts once for
/// each distinct word of its description.
pub fn get_description_word_average_rating(
    games: &HashMap<usize, Game>,
    metadata: &Vec<GameMetadata>,
    min_appearance: usize,
) -> (averages: Vec<AggregateScore>)
    requires
        all_known(games@, metadata@),
    ensures
        scores(averages@) == averages_of(
            observations_of(games@, metadata@, by_word()),
            min_appearance as nat,
        ),
{
    let obs = word_observations(games, metadata);
    average_by_label(&obs, min_appearance)
}

/// Every reported score is the score of a label that occurs, with at least
/// `min_appearance` ratings: its sum is the sum of exactly the ratings
/// recorded against its label and its count is their number, so that the
/// average is their arithmetic mean.
pub proof fn lemma_reported_is_exact(obs: Seq<(Seq<char>, u8)>, min_appearance: nat, i: int)
    requires
        0 <= i < averages_of(obs, min_appearance).len(),
    ensures
        averages_of(obs, min_appearance)[i] == score_of(
            obs,
            averages_of(obs, min_appearance)[i].label,
        ),
        averages_of(obs, min_appearance)[i].count >= min_appearance,
        labels_of(obs).contains(averages_of(obs, min_appearance)[i].label),
{
    let groups = groups_of(obs);
    let names = distinct(labels_of(obs));
    let e = averages_of(obs, min_appearance)[i];
    groups.lemma_filter_pred(frequent(min_appearance), i);
    assert(frequent(min_appearance)(e));
    assert(groups.filter(frequent(min_appearance)).contains(e));
    groups.lemma_filter_contains_rev(frequent(min_appearance), e);
    let j = choose|j: int| 0 <= j < groups.len() && groups[j] == e;
    assert(groups[j] == score_of(obs, names[j]));
    lemma_distinct_generic(labels_of(obs));
    assert(names.contains(names[j]));
}

/// A label is reported exactly where it occurs with at least
/// `min_appearance` ratings, and then once: a label seen less often is
/// absent.
pub proof fn lemma_reported_labels(obs: Seq<(Seq<char>, u8)>, min_appearance: nat, label: Seq<char>)
    ensures
        averages_of(obs, min_appearance).contains(score_of(obs, label)) <==> (labels_of(
            obs,
        ).contains(label) && label_count(obs, label) >= min_appearance),
        forall|i: int|
            0 <= i < averages_of(obs, min_appearance).len() && (#[trigger] averages_of(
                obs,
                min_appearance,
            )[i]).label == label ==> label_count(obs, label) >= min_appearance,
{
    let groups = groups_of(obs);
    let names = distinct(labels_of(obs));
    let wanted = score_of(obs, label);
    lemma_distinct_generic(labels_of(obs));
    if labels_of(obs).contains(label) && label_count(obs, label) >= min_appearance {
        assert(names.contains(label));
        let j = choose|j: int| 0 <= j < names.len() && names[j] == label;
        assert(groups[j] == wanted);
        assert(frequent(min_appearance)(groups[j]));
        groups.lemma_filter_contains(frequent(min_appearance), j);
    }
    if averages_of(obs, min_appearance).contains(wanted) {
        let i = choose|i: int|
            0 <= i < averages_of(obs, min_appearance).len() && averages_of(obs, min_appearance)[i]
                == wanted;
        lemma_reported_is_exact(obs, min_appearance, i);
    }
    assert forall|i: int|
        0 <= i < averages_of(obs, min_appearance).len() && (#[trigger] averages_of(
            obs,
            min_appearance,
        )[i]).label == label implies label_count(obs, label) >= min_appearance by {
        lemma_reported_is_exact(obs, min_appearance, i);
    }
}

/// Tags that differ in case only, on one game or on several, are recorded
/// against one label: the label is the tag in lower case.
pub proof fn lemma_tags_merge(first: Seq<String>, i: int, second: Seq<String>, j: int)
    requires
        0 <= i < first.len(),
        0 <= j < second.len(),
        lowercase_of(first[i]@) == lowercase_of(second[j]@),
    ensures
        tag_labels(first)[i] == tag_labels(second)[j],
        tag_labels(first)[i] == lowercase_of(first[i]@),
{
}

/// A rating recorded against labels without repetition counts once for each
/// of them, and for no other label.
pub proof fn lemma_counted_once(labels: Seq<Seq<char>>, rating: u8, label: Seq<char>)
    requires
        labels.no_duplicates(),
    ensures
        label_count(recorded(labels, rating), label) == if labels.contains(label) {
            1nat
        } else {
            0nat
        },
        label_sum(recorded(labels, rating), label) == if labels.contains(label) {
            rating as nat
        } else {
            0nat
        },
    decreases labels.len(),
{
    if labels.len() > 0 {
        let init = labels.drop_last();
        assert(recorded(labels, rating).drop_last() =~= recorded(init, rating));
        assert(recorded(labels, rating).last() == (labels.last(), rating));
        lemma_counted_once(init, rating, label);
        if init.contains(label) {
            let i = choose|i: int| 0 <= i < init.len() && init[i] == label;
            assert(labels[i] == label);
            assert(labels.contains(label));
            assert(labels[labels.len() - 1] != labels[i]);
        } else if labels.last() == label {
            assert(labels[labels.len() - 1] == label);
            assert(labels.contains(label));
        } else {
            if labels.contains(label) {
                let i = choose|i: int| 0 <= i < labels.len() && labels[i] == label;
                assert(init[i] == label);
            }
        }
    }
}

/// However often a word is repeated in a description, the game's rating is
/// recorded against it once; against a word that the description lacks it is
/// not recorded.
pub proof fn lemma_word_counts_once(description: Seq<char>, rating: u8, word: Seq<char>)
    ensures
        words_of(description).no_duplicates(),
        label_count(recorded(words_of(description), rating), word) == if words_of(
            description,
        ).contains(word) {
            1nat
        } else {
            0nat
        },
{
    lemma_distinct_generic(split_on_space(lowercase_of(description).filter(kept())));
    lemma_counted_once(words_of(description), rating, word);
}

/// Where every game of the catalogue has a percentage as its positive
/// rating, every rating recorded is a percentage, and so is the average of
/// every label: its sum is at most 100 times its count.
pub proof fn lemma_average_is_percentage(
    games: Map<usize, Game>,
    metadata: Seq<GameMetadata>,
    extract: spec_fn(GameMetadata) -> Seq<Seq<char>>,
    label: Seq<char>,
)
    requires
        all_known(games, metadata),
        forall|id: usize| games.contains_key(id) ==> (#[trigger] games[id]).wf(),
    ensures
        forall|i: int|
            0 <= i < observations_of(games, metadata, extract).len() ==> (
            #[trigger] observations_of(games, metadata, extract)[i]).1 <= 100,
        label_sum(observations_of(games, metadata, extract), label) <= 100 * label_count(
            observations_of(games, metadata, extract),
            label,
        ),
    decreases metadata.len(),
{
    if metadata.len() > 0 {
        let init = metadata.drop_last();
        assert forall|i: int| 0 <= i < init.len() implies games.contains_key(
            (#[trigger] init[i]).app_id,
        ) by {
            assert(init[i] == metadata[i]);
        }
        lemma_average_is_percentage(games, init, extract, label);
        assert(metadata.last() == metadata[metadata.len() - 1]);
        assert(games[metadata.last().app_id].wf());
    }
    lemma_average_at_most(observations_of(games, metadata, extract), label, 100);
}

} // verus!

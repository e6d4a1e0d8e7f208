//! The ranking of the drivers in each of the three qualifying segments.
//!
//! Every driver stands in every segment's ranking. Drivers are ranked by
//! their time in the segment; drivers without a time in it come last, in the
//! order in which they came in.

use crate::lap_time::{lap_time_of, parse_lap_time};
use crate::records::AggregateError;
use crate::sorting::{
    key_of, lemma_sorted_is_ordered, lemma_sorted_is_permutation, lemma_sorted_len, stable_sort,
    stable_sorted, Keyed,
};
use vstd::prelude::*;

verus! {

/// One of the three segments of qualifying.
#[derive(Clone, Copy, Debug, PartialEq, Eq, Structural)]
pub enum Segment {
    Q1,
    Q2,
    Q3,
}

/// What a driver did in qualifying: who they are, and the time they set in
/// each segment, as text.
#[derive(Clone, Debug)]
pub struct QualifyingResult {
    pub driver_number: Option<u32>,
    pub driver_code: Option<String>,
    pub driver_name: Option<String>,
    pub constructor: Option<String>,
    pub q1: Option<String>,
    pub q2: Option<String>,
    pub q3: Option<String>,
}

/// A driver's rank in one segment.
#[derive(Clone, Debug)]
pub struct QualifyingRanking {
    pub position: usize,
    pub driver_number: Option<u32>,
    pub driver_code: Option<String>,
    pub driver_name: Option<String>,
    pub constructor: Option<String>,
    pub time: String,
    pub time_millis: Option<u64>,
}

/// The rankings of the three segments.
#[derive(Clone, Debug)]
pub struct QualifyingRankings {
    pub q1: Vec<QualifyingRanking>,
    pub q2: Vec<QualifyingRanking>,
    pub q3: Vec<QualifyingRanking>,
}

/// The characters of a text that may be missing.
pub open spec fn chars_of(text: Option<String>) -> Option<Seq<char>> {
    match text {
        Some(text) => Some(text@),
        None => None,
    }
}

/// A qualifying result as a value of specifications.
pub struct ResultView {
    pub driver_number: Option<u32>,
    pub driver_code: Option<Seq<char>>,
    pub driver_name: Option<Seq<char>>,
    pub constructor: Option<Seq<char>>,
    pub q1: Option<Seq<char>>,
    pub q2: Option<Seq<char>>,
    pub q3: Option<Seq<char>>,
}

impl View for QualifyingResult {
    type V = ResultView;

    open spec fn view(&self) -> ResultView {
        ResultView {
            driver_number: self.driver_number,
            driver_code: chars_of(self.driver_code),
            driver_name: chars_of(self.driver_name),
            constructor: chars_of(self.constructor),
            q1: chars_of(self.q1),
            q2: chars_of(self.q2),
            q3: chars_of(self.q3),
        }
    }
}

/// A rank as a value of specifications.
pub struct RankingView {
    pub position: usize,
    pub driver_number: Option<u32>,
    pub driver_code: Option<Seq<char>>,
    pub driver_name: Option<Seq<char>>,
    pub constructor: Option<Seq<char>>,
    pub time: Seq<char>,
    pub time_millis: Option<u64>,
}

impl View for QualifyingRanking {
    type V = RankingView;

    open spec fn view(&self) -> RankingView {
        RankingView {
            position: self.position,
            driver_number: self.driver_number,
            driver_code: chars_of(self.driver_code),
            driver_name: chars_of(self.driver_name),
            constructor: chars_of(self.constructor),
            time: self.time@,
            time_millis: self.time_millis,
        }
    }
}

/// The views of results.
pub open spec fn result_views(results: Seq<QualifyingResult>) -> Seq<ResultView> {
    Seq::new(results.len(), |i: int| results[i]@)
}

/// The views of ranks.
pub open spec fn ranking_views(ranking: Seq<QualifyingRanking>) -> Seq<RankingView> {
    Seq::new(ranking.len(), |i: int| ranking[i]@)
}

/// The text of a driver's time in a segment; empty where they set none.
pub open spec fn segment_text(result: ResultView, segment: Segment) -> Seq<char> {
    let text = match segment {
        Segment::Q1 => result.q1,
        Segment::Q2 => result.q2,
        Segment::Q3 => result.q3,
    };
    match text {
        Some(text) => text,
        None => Seq::empty(),
    }
}

/// A driver's place among the results and their time in a segment.
#[derive(Clone, Copy, Debug, PartialEq, Eq, Structural)]
pub struct RankKey {
    pub index: usize,
    pub time: Option<u64>,
}

impl Keyed for RankKey {
    /// The time; a driver without one comes after every driver with one.
    open spec fn key(&self) -> int {
        match self.time {
            Some(millis) => millis as int,
            None => u64::MAX + 1,
        }
    }

    fn not_after(&self, other: &Self) -> (yes: bool) {
        match (self.time, other.time) {
            (Some(own), Some(theirs)) => own <= theirs,
            (Some(_), None) => true,
            (None, Some(_)) => false,
            (None, None) => true,
        }
    }
}

/// The keys of the drivers of `results` in a segment, in the order of the
/// results.
pub open spec fn rank_keys(results: Seq<ResultView>, segment: Segment) -> Seq<RankKey> {
    Seq::new(
        results.len(),
        |i: int| RankKey { index: i as usize, time: lap_time_of(segment_text(results[i], segment)) },
    )
}

/// The rank of the driver with key `key` who stands at `place`, counted from
/// zero, in a segment's order.
pub open spec fn ranked(results: Seq<ResultView>, segment: Segment, key: RankKey, place: int) -> RankingView {
    let result = results[key.index as int];
    RankingView {
        position: (place + 1) as usize,
        driver_number: result.driver_number,
        driver_code: result.driver_code,
        driver_name: result.driver_name,
        constructor: result.constructor,
        time: segment_text(result, segment),
        time_millis: key.time,
    }
}

/// The ranking of a segment: every driver, by time, drivers without a time
/// last; drivers that tie stand in the order of the results. Positions count
/// from one.
pub open spec fn segment_ranking(results: Seq<ResultView>, segment: Segment) -> Seq<RankingView> {
    let order = stable_sorted(rank_keys(results, segment));
    Seq::new(results.len(), |place: int| ranked(results, segment, order[place], place))
}

/// Whether a driver with time `earlier` may stand before one with time
/// `later`: times do not fall, and no driver without a time stands before
/// one with a time.
pub open spec fn in_rank_order(earlier: Option<u64>, later: Option<u64>) -> bool {
    match (earlier, later) {
        (Some(first), Some(second)) => first <= second,
        (Some(_), None) => true,
        (None, Some(_)) => false,
        (None, None) => true,
    }
}

/// A segment's ranking holds every driver, its positions count from one, its
/// times do not fall, and the drivers without a time come last.
pub proof fn lemma_ranking_order(results: Seq<ResultView>, segment: Segment)
    requires
        results.len() < usize::MAX,
    ensures
        segment_ranking(results, segment).len() == results.len(),
        forall|place: int|
            0 <= place < results.len() ==> (#[trigger] segment_ranking(
                results,
                segment,
            )[place]).position == place + 1,
        forall|i: int, j: int|
            0 <= i <= j < results.len() ==> in_rank_order(
                (#[trigger] segment_ranking(results, segment)[i]).time_millis,
                (#[trigger] segment_ranking(results, segment)[j]).time_millis,
            ),
{
    let keys = rank_keys(results, segment);
    let order = stable_sorted(keys);
    lemma_sorted_len(keys, key_of::<RankKey>());
    lemma_sorted_is_ordered(keys, key_of::<RankKey>());
    assert forall|i: int, j: int| 0 <= i <= j < results.len() implies in_rank_order(
        (#[trigger] segment_ranking(results, segment)[i]).time_millis,
        (#[trigger] segment_ranking(results, segment)[j]).time_millis,
    ) by {
        assert(key_of::<RankKey>()(order[i]) <= key_of::<RankKey>()(
            order[j],
        ));
    }
}

/// The time of a driver in a segment, as text.
fn time_text(result: &QualifyingResult, segment: Segment) -> (text: String)
    ensures
        text@ == segment_text(result@, segment),
{
    let held = match segment {
        Segment::Q1 => &result.q1,
        Segment::Q2 => &result.q2,
        Segment::Q3 => &result.q3,
    };
    match held {
        Some(text) => text.clone(),
        None => String::new(),
    }
}

/// A copy of a text that may be missing.
fn copy_text(text: &Option<String>) -> (copy: Option<String>)
    ensures
        chars_of(copy) == chars_of(*text),
{
    match text {
        Some(text) => Some(text.clone()),
        None => None,
    }
}

/// The keys of the drivers of `results` in a segment.
fn keys_of(results: &Vec<QualifyingResult>, segment: Segment) -> (keys: Vec<RankKey>)
    ensures
        keys@ == rank_keys(result_views(results@), segment),
{
    let mut keys: Vec<RankKey> = Vec::new();
    let mut i: usize = 0;
    while i < results.len()
        invariant
            i <= results.len(),
            keys.len() == i,
            forall|j: int|
                0 <= j < i ==> keys[j] == (RankKey {
                    index: j as usize,
                    time: lap_time_of(segment_text(results[j]@, segment)),
                }),
        decreases results.len() - i,
    {
        let text = time_text(&results[i], segment);
        keys.push(RankKey { index: i, time: parse_lap_time(text.as_str()) });
        i += 1;
    }
    proof {
        assert(keys@ =~= rank_keys(result_views(results@), segment));
    }
    keys
}

/// Every key of a sorted order is a key of the results.
proof fn lemma_order_indices(results: Seq<ResultView>, segment: Segment)
    requires
        results.len() <= usize::MAX,
    ensures
        stable_sorted(rank_keys(results, segment)).len() == results.len(),
        forall|place: int|
            0 <= place < results.len() ==> (#[trigger] stable_sorted(
                rank_keys(results, segment),
            )[place]).index < results.len(),
{
    let keys = rank_keys(results, segment);
    let order = stable_sorted(keys);
    lemma_sorted_len(keys, key_of::<RankKey>());
    lemma_sorted_is_permutation(keys, key_of::<RankKey>());
    assert forall|place: int| 0 <= place < results.len() implies (#[trigger] order[place]).index
        < results.len() by {
        order.to_multiset_ensures();
        keys.to_multiset_ensures();
        assert(order.contains(order[place]));
        assert(keys.to_multiset().count(order[place]) > 0);
        assert(keys.contains(order[place]));
        let at = choose|at: int| 0 <= at < keys.len() && keys[at] == order[place];
        assert(keys[at].index == at);
    }
}

/// The ranking of the drivers of `results` in one segment.
pub fn rank_segment(results: &Vec<QualifyingResult>, segment: Segment) -> (ranking: Vec<
    QualifyingRanking,
>)
    ensures
        ranking_views(ranking@) == segment_ranking(result_views(results@), segment),
{
    let order = stable_sort(keys_of(results, segment));
    let mut ranking: Vec<QualifyingRanking> = Vec::new();
    let mut place: usize = 0;
    proof {
        lemma_order_indices(result_views(results@), segment);
    }
    while place < order.len()
        invariant
            place <= order.len(),
            order.len() == results.len(),
            order@ == stable_sorted(rank_keys(result_views(results@), segment)),
            forall|k: int| 0 <= k < order.len() ==> (#[trigger] order[k]).index < results.len(),
            ranking.len() == place,
            forall|k: int|
                0 <= k < place ==> (#[trigger] ranking[k])@ == ranked(
                    result_views(results@),
                    segment,
                    order[k],
                    k,
                ),
        decreases order.len() - place,
    {
        let key = order[place];
        let result = &results[key.index];
        ranking.push(
            QualifyingRanking {
                position: place + 1,
                driver_number: result.driver_number,
                driver_code: copy_text(&result.driver_code),
                driver_name: copy_text(&result.driver_name),
                constructor: copy_text(&result.constructor),
                time: time_text(result, segment),
                time_millis: key.time,
            },
        );
        place += 1;
    }
    proof {
        assert(ranking_views(ranking@) =~= segment_ranking(result_views(results@), segment));
    }
    ranking
}

/// The rankings of the three segments. Without any result there is no valid
/// data.
pub fn qualifying_rankings(results: &Vec<QualifyingResult>) -> (rankings: Result<
    QualifyingRankings,
    AggregateError,
>)
    ensures
        match rankings {
            Ok(found) => results.len() > 0 && ranking_views(found.q1@) == segment_ranking(
                result_views(results@),
                Segment::Q1,
            ) && ranking_views(found.q2@) == segment_ranking(result_views(results@), Segment::Q2)
                && ranking_views(found.q3@) == segment_ranking(
                result_views(results@),
                Segment::Q3,
            ),
            Err(error) => results.len() == 0 && error == AggregateError::NoValidData,
        },
{
    if results.len() == 0 {
        return Err(AggregateError::NoValidData);
    }
    Ok(
        QualifyingRankings {
            q1: rank_segment(results, Segment::Q1),
            q2: rank_segment(results, Segment::Q2),
            q3: rank_segment(results, Segment::Q3),
        },
    )
}

} // verus!

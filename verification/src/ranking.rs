//! Choosing among candidates: the lowest score wins, and among equal scores
//! the candidate that was produced first.

use crate::db::ChordCandidate;
use itertools::Itertools;
use vstd::prelude::*;

verus! {

/// Position `m` holds the lowest of `scores`, and no earlier position holds
/// a score as low.
pub open spec fn is_first_lowest(scores: Seq<nat>, m: int) -> bool {
    &&& 0 <= m < scores.len()
    &&& forall|k: int| 0 <= k < scores.len() ==> scores[m] <= #[trigger] scores[k]
    &&& forall|k: int| 0 <= k < m ==> scores[m] < #[trigger] scores[k]
}

/// The first position that holds the lowest of `scores`.
pub open spec fn first_lowest(scores: Seq<nat>) -> int
    recommends
        scores.len() > 0,
{
    choose|m: int| is_first_lowest(scores, m)
}

/// Every non-empty list of scores has exactly one first lowest position.
pub proof fn lemma_first_lowest(scores: Seq<nat>)
    requires
        scores.len() > 0,
    ensures
        is_first_lowest(scores, first_lowest(scores)),
        forall|m: int| is_first_lowest(scores, m) ==> m == first_lowest(scores),
    decreases scores.len(),
{
    if scores.len() == 1 {
        assert(is_first_lowest(scores, 0));
    } else {
        let front = scores.drop_last();
        lemma_first_lowest(front);
        let m = first_lowest(front);
        assert forall|k: int| 0 <= k < front.len() implies front[k] == scores[k] by {}
        if scores.last() < front[m] {
            assert(is_first_lowest(scores, scores.len() - 1));
        } else {
            assert(is_first_lowest(scores, m));
        }
    }
}

/// The scores of a list of candidates, position by position.
pub open spec fn scores_of<'a>(candidates: Seq<ChordCandidate<'a>>) -> Seq<nat> {
    Seq::new(candidates.len(), |k: int| candidates[k].score as nat)
}

/// The candidates of `candidates` whose score is `score`, in their order.
pub open spec fn with_score<'a>(candidates: Seq<ChordCandidate<'a>>, score: nat) -> Seq<
    ChordCandidate<'a>,
> {
    candidates.filter(|c: ChordCandidate<'a>| c.score == score)
}

/// `after` holds the candidates of `before` in ascending order of score,
/// and candidates of equal score in the order they had in `before`.
pub open spec fn is_stable_sort<'a>(
    before: Seq<ChordCandidate<'a>>,
    after: Seq<ChordCandidate<'a>>,
) -> bool {
    &&& forall|i: int, j: int|
        0 <= i <= j < after.len() ==> (#[trigger] after[i]).score <= (#[trigger] after[j]).score
    &&& forall|score: nat| #[trigger] with_score(after, score) == with_score(before, score)
}

/// Sorts the candidates with `Itertools::sorted_by_key`, the score being
/// the key.
///
/// The contract is assumed, not proved. It says what itertools documents of
/// `sorted_by_key`, an ascending and stable sort: the result is ordered by
/// score, and for each score the candidates that have it are the same, in
/// the same order, as before.
#[verifier::external_body]
fn sorted_by_score<'a>(candidates: Vec<ChordCandidate<'a>>) -> (sorted: Vec<ChordCandidate<'a>>)
    ensures
        is_stable_sort(candidates@, sorted@),
{
    candidates.into_iter().sorted_by_key(|c| c.score).collect()
}

/// The head of a filtered list is the first element that passes the filter.
proof fn lemma_filter_head<A>(s: Seq<A>, pred: spec_fn(A) -> bool, m: int)
    requires
        0 <= m < s.len(),
        pred(s[m]),
        forall|k: int| 0 <= k < m ==> !pred(#[trigger] s[k]),
    ensures
        s.filter(pred).len() > 0,
        s.filter(pred)[0] == s[m],
    decreases m,
{
    let rest = s.drop_first();
    assert(s =~= seq![s[0]] + rest);
    rest.lemma_filter_prepend(s[0], pred);
    if m > 0 {
        lemma_filter_head(rest, pred, m - 1);
    }
}

/// A stable sort by score puts the first lowest-scoring candidate in front.
pub proof fn lemma_stable_sort_head<'a>(
    before: Seq<ChordCandidate<'a>>,
    after: Seq<ChordCandidate<'a>>,
)
    requires
        is_stable_sort(before, after),
    ensures
        after.len() == 0 <==> before.len() == 0,
        before.len() > 0 ==> after[0] == before[first_lowest(scores_of(before))],
{
    if after.len() > 0 {
        // The front of `after` heads the candidates of `after` with its
        // score, so `before` holds a candidate with that score too.
        let front = after[0].score as nat;
        let has_front = |c: ChordCandidate<'a>| c.score == front;
        lemma_filter_head(after, has_front, 0);
        assert(with_score(after, front) == with_score(before, front));
        before.lemma_filter_contains_rev(has_front, before.filter(has_front)[0]);
    }
    if before.len() > 0 {
        // The first lowest of `before` heads the candidates of `before` with
        // its score, so `after` holds a candidate with that score too.
        let scores = scores_of(before);
        lemma_first_lowest(scores);
        let m = first_lowest(scores);
        let low = before[m].score as nat;
        let has_low = |c: ChordCandidate<'a>| c.score == low;
        assert forall|k: int| 0 <= k < m implies !has_low(#[trigger] before[k]) by {
            assert(scores[m] < scores[k]);
        }
        lemma_filter_head(before, has_low, m);
        assert(with_score(after, low) == with_score(before, low));
        after.lemma_filter_contains_rev(has_low, after.filter(has_low)[0]);
        // The front of `after` scores no more than that candidate, and no
        // candidate of `before` scores less than `low`: the front scores `low`.
        let front = after[0].score as nat;
        let has_front = |c: ChordCandidate<'a>| c.score == front;
        lemma_filter_head(after, has_front, 0);
        assert(with_score(after, front) == with_score(before, front));
        let twin = before.filter(has_front)[0];
        before.lemma_filter_contains_rev(has_front, twin);
        let k = choose|k: int| 0 <= k < before.len() && before[k] == twin;
        assert(scores[m] <= scores[k]);
        assert(front == low);
        lemma_filter_head(after, has_low, 0);
    }
}

/// The candidate with the lowest score; among several with that score, the
/// one that comes first in `candidates`. `None` when there is no candidate.
pub fn best_candidate<'a>(candidates: Vec<ChordCandidate<'a>>) -> (best: Option<
    ChordCandidate<'a>,
>)
    ensures
        candidates@.len() == 0 ==> best is None,
        candidates@.len() > 0 ==> best == Some(
            candidates@[first_lowest(scores_of(candidates@))],
        ),
{
    let mut sorted = sorted_by_score(candidates);
    proof {
        lemma_stable_sort_head(candidates@, sorted@);
    }
    if sorted.len() == 0 {
        None
    } else {
        Some(sorted.swap_remove(0))
    }
}

} // verus!

//! What it means to name a chord: the model that the naming function is
//! held to.
//!
//! A list of notes is tried on each of the twelve roots against each row of
//! the chord database. A trial is scored by how far the notes, taken
//! relative to the root, are from the row's intervals. The lowest score
//! wins; among equal scores the lower root wins, and on one root the
//! earlier row.

use crate::db::{chord_label, mismatch, root_name, template_intervals, template_name};
use crate::ranking::{first_lowest, is_first_lowest, lemma_first_lowest};
use vstd::prelude::*;

verus! {

/// The distance in semitones from `root` up to `note`, octaves set aside:
/// the mathematical remainder, never negative.
pub open spec fn interval_above(note: int, root: int) -> int {
    (note - root) % 12
}

/// The notes as intervals above `root`, one for one.
pub open spec fn relative_intervals(notes: Seq<i32>, root: int) -> Seq<i32> {
    Seq::new(notes.len(), |k: int| interval_above(notes[k] as int, root) as i32)
}

/// The pitch classes that occur among `notes`.
pub open spec fn pitch_classes(notes: Seq<i32>) -> Set<i32> {
    relative_intervals(notes, 0).to_set()
}

/// The score of `notes` tried on `root` against row `t` of the database.
pub open spec fn score_of(notes: Seq<i32>, root: int, t: int) -> nat {
    mismatch(template_intervals(t), relative_intervals(notes, root).to_set())
}

/// Trial `(r1, t1)` comes no later than trial `(r2, t2)`: roots are tried in
/// ascending order, and on each root the rows in table order.
pub open spec fn tried_no_later(r1: int, t1: int, r2: int, t2: int) -> bool {
    r1 < r2 || (r1 == r2 && t1 <= t2)
}

/// Trial `(root, t)` wins for `notes`: no trial scores lower, and no trial
/// that scores the same was tried earlier.
pub open spec fn is_best(notes: Seq<i32>, root: int, t: int) -> bool {
    &&& 0 <= root < 12
    &&& 0 <= t < 42
    &&& forall|r2: int, t2: int|
        0 <= r2 < 12 && 0 <= t2 < 42 ==> {
            ||| score_of(notes, root, t) < #[trigger] score_of(notes, r2, t2)
            ||| score_of(notes, root, t) == score_of(notes, r2, t2) && tried_no_later(
                root,
                t,
                r2,
                t2,
            )
        }
}

/// The winning trial: its root and its database row.
pub open spec fn best_trial(notes: Seq<i32>) -> (int, int) {
    choose|root: int, t: int| is_best(notes, root, t)
}

/// The root of the winning trial.
pub open spec fn best_root(notes: Seq<i32>) -> int {
    best_trial(notes).0
}

/// The database row of the winning trial.
pub open spec fn best_template(notes: Seq<i32>) -> int {
    best_trial(notes).1
}

/// The score of the winning trial.
pub open spec fn lowest_score(notes: Seq<i32>) -> nat {
    score_of(notes, best_root(notes), best_template(notes))
}

/// The name of the chord that `notes` form.
pub open spec fn chord_name(notes: Seq<i32>) -> Seq<char> {
    chord_label(root_name(best_root(notes)), template_name(best_template(notes)))
}

/// The scores of all trials in the order in which they are tried: trial
/// `(root, t)` stands at position `42 * root + t`.
pub open spec fn trial_scores(notes: Seq<i32>) -> Seq<nat> {
    Seq::new(504, |k: int| score_of(notes, k / 42, k % 42))
}

/// The first lowest position among the trial scores is the winning trial.
pub proof fn lemma_first_lowest_is_best(notes: Seq<i32>, m: int)
    requires
        is_first_lowest(trial_scores(notes), m),
    ensures
        is_best(notes, m / 42, m % 42),
{
    let scores = trial_scores(notes);
    let root = m / 42;
    let t = m % 42;
    assert forall|r2: int, t2: int| 0 <= r2 < 12 && 0 <= t2 < 42 implies {
        ||| score_of(notes, root, t) < #[trigger] score_of(notes, r2, t2)
        ||| score_of(notes, root, t) == score_of(notes, r2, t2) && tried_no_later(root, t, r2, t2)
    } by {
        let k = 42 * r2 + t2;
        if k < m {
            assert(scores[m] < scores[k]);
        }
    }
}

/// Two winning trials for the same notes are the same trial.
pub proof fn lemma_best_unique(notes: Seq<i32>, r1: int, t1: int, r2: int, t2: int)
    requires
        is_best(notes, r1, t1),
        is_best(notes, r2, t2),
    ensures
        r1 == r2,
        t1 == t2,
{
    assert(score_of(notes, r2, t2) <= score_of(notes, r1, t1));
}

/// Every list of notes has a winning trial, and only one: it is
/// `(best_root, best_template)`.
pub proof fn lemma_best_exists(notes: Seq<i32>)
    ensures
        is_best(notes, best_root(notes), best_template(notes)),
        forall|root: int, t: int| #[trigger]
            is_best(notes, root, t) ==> root == best_root(notes) && t == best_template(notes),
{
    let scores = trial_scores(notes);
    lemma_first_lowest(scores);
    let m = first_lowest(scores);
    lemma_first_lowest_is_best(notes, m);
    let root = best_root(notes);
    let t = best_template(notes);
    assert forall|r2: int, t2: int| #[trigger] is_best(notes, r2, t2) implies r2 == root && t2
        == t by {
        lemma_best_unique(notes, r2, t2, root, t);
    }
}

} // verus!

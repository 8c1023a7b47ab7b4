//! Names the chord that a handful of notes form.
//!
//! The notes are MIDI note numbers, in any order and any octave. They are
//! tried on each of the twelve roots against each chord quality of the
//! database in [`db`]; the trial that leaves the fewest notes unexplained
//! gives the name, and [`ranking`] picks it. The module [`theory`] says
//! which trial that is, and [`laws`] holds what follows for every input.

pub mod db;
pub mod laws;
pub mod ranking;
pub mod theory;

use crate::db::{chord_db, is_row, lemma_templates_well_formed};
use crate::db::{ChordCandidate, ChordTemplate};
use crate::laws::lemma_no_notes;
use crate::ranking::{best_candidate, first_lowest, lemma_first_lowest, scores_of};
use crate::theory::{best_root, best_template, chord_name, is_best, lemma_best_exists};
use crate::theory::{lemma_first_lowest_is_best, relative_intervals};
use crate::theory::{score_of, trial_scores};
use vstd::prelude::*;

verus! {

/// The notes of `chord` as intervals above `root`: each the distance in
/// semitones from the root up to the note, reduced to one octave.
pub fn chord_to_intervals(chord: &[i32], root: i32) -> (intervals: Vec<i32>)
    ensures
        intervals@ == relative_intervals(chord@, root as int),
{
    let mut intervals: Vec<i32> = Vec::new();
    for k in 0..chord.len()
        invariant
            intervals@ == relative_intervals(chord@.take(k as int), root as int),
    {
        let distance: i64 = chord[k] as i64 - root as i64;
        let interval: i64 = ((distance % 12) + 12) % 12;
        intervals.push(interval as i32);
    }
    intervals
}

/// Every trial of `chord`, in the order in which ties are broken: for each
/// root from 0 to 11, each row of `db` in table order.
fn all_candidates<'a>(db: &'a Vec<ChordTemplate>, chord: &[i32]) -> (candidates: Vec<
    ChordCandidate<'a>,
>)
    requires
        db@.len() == 42,
        forall|t: int| 0 <= t < 42 ==> is_row(#[trigger] db@[t], t),
    ensures
        candidates@.len() == 504,
        forall|k: int|
            0 <= k < 504 ==> {
                &&& (#[trigger] candidates@[k]).root == k / 42
                &&& candidates@[k].chord_template == db@[k % 42]
                &&& candidates@[k].score == score_of(chord@, k / 42, k % 42)
            },
{
    let mut candidates: Vec<ChordCandidate<'a>> = Vec::new();
    let mut root: i32 = 0;
    while root < 12
        invariant
            0 <= root <= 12,
            db@.len() == 42,
            forall|t: int| 0 <= t < 42 ==> is_row(#[trigger] db@[t], t),
            candidates@.len() == 42 * root,
            forall|k: int|
                0 <= k < candidates@.len() ==> {
                    &&& (#[trigger] candidates@[k]).root == k / 42
                    &&& candidates@[k].chord_template == db@[k % 42]
                    &&& candidates@[k].score == score_of(chord@, k / 42, k % 42)
                },
        decreases 12 - root,
    {
        let intervals = chord_to_intervals(chord, root);
        let mut t: usize = 0;
        while t < 42
            invariant
                0 <= root < 12,
                0 <= t <= 42,
                db@.len() == 42,
                forall|t: int| 0 <= t < 42 ==> is_row(#[trigger] db@[t], t),
                intervals@ == relative_intervals(chord@, root as int),
                candidates@.len() == 42 * root + t,
                forall|k: int|
                    0 <= k < candidates@.len() ==> {
                        &&& (#[trigger] candidates@[k]).root == k / 42
                        &&& candidates@[k].chord_template == db@[k % 42]
                        &&& candidates@[k].score == score_of(chord@, k / 42, k % 42)
                    },
            decreases 42 - t,
        {
            proof {
                lemma_templates_well_formed();
            }
            let candidate = db[t].create_candidate(intervals.as_slice(), root);
            candidates.push(candidate);
            t += 1;
        }
        root += 1;
    }
    candidates
}

/// The name of the chord that the notes of `chord` form, such as `c major`
/// or `f# m7`. Octaves and repeated notes make no difference. Every input
/// has a name; that of no notes at all is `c major`.
pub fn get_chord_name(chord: Vec<i32>) -> (name: String)
    ensures
        is_best(chord@, best_root(chord@), best_template(chord@)),
        name@ == chord_name(chord@),
        chord@.len() == 0 ==> name@ == "c major"@,
{
    let db = chord_db();
    let candidates = all_candidates(&db, chord.as_slice());
    proof {
        if chord@.len() == 0 {
            assert(chord@ =~= Seq::<i32>::empty());
            lemma_no_notes();
        }
        let m = first_lowest(scores_of(candidates@));
        assert(scores_of(candidates@) =~= trial_scores(chord@));
        lemma_first_lowest(trial_scores(chord@));
        lemma_first_lowest_is_best(chord@, m);
        lemma_best_exists(chord@);
    }
    let best = best_candidate(candidates);
    best.unwrap().get_name()
}

} // verus!

//! What holds of the names for every input.

use crate::db::{chord_label, lemma_mismatch_zero, lemma_templates_well_formed};
use crate::db::{root_name, template_intervals, template_name};
use crate::theory::{best_root, best_template, chord_name, interval_above, is_best};
use crate::theory::{lemma_best_exists, lowest_score, pitch_classes, relative_intervals};
use crate::theory::{score_of, tried_no_later};
use vstd::prelude::*;

verus! {

/// The intervals of `notes` above `root`, as a set, are the pitch classes of
/// `notes` turned back by `root` steps.
pub proof fn lemma_intervals_from_pitch_classes(notes: Seq<i32>, root: int)
    ensures
        forall|i: i32|
            relative_intervals(notes, root).to_set().contains(i) <==> 0 <= i < 12
                && pitch_classes(notes).contains(((i + root) % 12) as i32),
{
    let above = relative_intervals(notes, root);
    let classes = relative_intervals(notes, 0);
    assert forall|i: i32| above.to_set().contains(i) <==> 0 <= i < 12 && pitch_classes(
        notes,
    ).contains(((i + root) % 12) as i32) by {
        let p = ((i + root) % 12) as i32;
        if above.to_set().contains(i) {
            let k = choose|k: int| 0 <= k < above.len() && above[k] == i;
            assert(classes[k] == p);
        }
        if 0 <= i < 12 && classes.to_set().contains(p) {
            let k = choose|k: int| 0 <= k < classes.len() && classes[k] == p;
            assert(above[k] == i);
        }
    }
}

/// The name depends on the pitch classes of the notes alone: two lists of
/// notes with the same pitch classes have the same winning trial and the
/// same name.
pub proof fn lemma_name_depends_on_pitch_classes(a: Seq<i32>, b: Seq<i32>)
    requires
        pitch_classes(a) == pitch_classes(b),
    ensures
        best_root(a) == best_root(b),
        best_template(a) == best_template(b),
        chord_name(a) == chord_name(b),
{
    assert forall|root: int, t: int| #[trigger] score_of(a, root, t) == score_of(b, root, t) by {
        lemma_intervals_from_pitch_classes(a, root);
        lemma_intervals_from_pitch_classes(b, root);
        assert(relative_intervals(a, root).to_set() =~= relative_intervals(b, root).to_set());
    }
    lemma_best_exists(a);
    lemma_best_exists(b);
    let root = best_root(a);
    let t = best_template(a);
    assert forall|r2: int, t2: int| 0 <= r2 < 12 && 0 <= t2 < 42 implies {
        ||| score_of(b, root, t) < #[trigger] score_of(b, r2, t2)
        ||| score_of(b, root, t) == score_of(b, r2, t2) && tried_no_later(root, t, r2, t2)
    } by {
        assert(score_of(a, r2, t2) == score_of(b, r2, t2));
    }
}

/// The notes of `notes`, each moved by `by` semitones.
pub open spec fn transposed(notes: Seq<i32>, by: int) -> Seq<i32> {
    Seq::new(notes.len(), |k: int| (notes[k] + by) as i32)
}

/// Every note of `notes`, moved by `by` semitones, is still an `i32`.
pub open spec fn can_transpose(notes: Seq<i32>, by: int) -> bool {
    forall|k: int| 0 <= k < notes.len() ==> i32::MIN <= #[trigger] notes[k] + by <= i32::MAX
}

/// Octave invariance: playing, besides the notes, each of them again `k`
/// octaves higher or lower does not change the name.
pub proof fn lemma_octave_invariance(notes: Seq<i32>, k: int)
    requires
        can_transpose(notes, 12 * k),
    ensures
        chord_name(notes + transposed(notes, 12 * k)) == chord_name(notes),
{
    let moved = transposed(notes, 12 * k);
    let all = notes + moved;
    let classes = relative_intervals(notes, 0);
    let all_classes = relative_intervals(all, 0);
    assert forall|p: i32| classes.to_set().contains(p) <==> all_classes.to_set().contains(p) by {
        if classes.contains(p) {
            let j = choose|j: int| 0 <= j < classes.len() && classes[j] == p;
            assert(all_classes[j] == p);
        }
        if all_classes.contains(p) {
            let j = choose|j: int| 0 <= j < all_classes.len() && all_classes[j] == p;
            if j < notes.len() {
                assert(classes[j] == p);
            } else {
                assert(classes[j - notes.len()] == p);
            }
        }
    }
    assert(pitch_classes(notes) =~= pitch_classes(all));
    lemma_name_depends_on_pitch_classes(all, notes);
}

/// Duplicate invariance: playing one of the notes once more, at any place
/// in the list, does not change the name.
pub proof fn lemma_duplicate_invariance(notes: Seq<i32>, which: int, at: int)
    requires
        0 <= which < notes.len(),
        0 <= at <= notes.len(),
    ensures
        chord_name(notes.insert(at, notes[which])) == chord_name(notes),
{
    let more = notes.insert(at, notes[which]);
    let classes = relative_intervals(notes, 0);
    let more_classes = relative_intervals(more, 0);
    assert forall|p: i32| classes.to_set().contains(p) <==> more_classes.to_set().contains(p) by {
        if classes.contains(p) {
            let j = choose|j: int| 0 <= j < classes.len() && classes[j] == p;
            if j < at {
                assert(more_classes[j] == p);
            } else {
                assert(more_classes[j + 1] == p);
            }
        }
        if more_classes.contains(p) {
            let j = choose|j: int| 0 <= j < more_classes.len() && more_classes[j] == p;
            if j < at {
                assert(classes[j] == p);
            } else if j == at {
                assert(classes[which] == p);
            } else {
                assert(classes[j - 1] == p);
            }
        }
    }
    assert(pitch_classes(notes) =~= pitch_classes(more));
    lemma_name_depends_on_pitch_classes(more, notes);
}

/// Moving the notes up by `by` semitones moves every trial to the root `by`
/// steps further round the circle of twelve, with its score unchanged.
pub proof fn lemma_transposed_scores(notes: Seq<i32>, by: int, root: int, t: int)
    requires
        can_transpose(notes, by),
    ensures
        score_of(transposed(notes, by), (root + by) % 12, t) == score_of(notes, root, t),
{
    let moved = transposed(notes, by);
    assert(relative_intervals(moved, (root + by) % 12) =~= relative_intervals(notes, root));
}

/// Among the roots on which some trial reaches the lowest score, the
/// winning root is still the first once every root is moved `by` steps round
/// the circle of twelve: none of the others is carried past the top of the
/// table to a place below it.
pub open spec fn keeps_root_first(notes: Seq<i32>, by: int) -> bool {
    forall|root: int, t: int|
        0 <= root < 12 && 0 <= t < 42 && #[trigger] score_of(notes, root, t) == lowest_score(
            notes,
        ) ==> (best_root(notes) + by) % 12 <= (root + by) % 12
}

/// Turning a pitch class forth by `root` steps and back again, or back and
/// forth again, gives the pitch class itself.
proof fn lemma_turn(p: int, root: int)
    requires
        0 <= p < 12,
    ensures
        0 <= (p + root) % 12 < 12,
        0 <= (p - root) % 12 < 12,
        ((p + root) % 12 - root) % 12 == p,
        ((p - root) % 12 + root) % 12 == p,
{
}

/// Two pitch classes that a turn by `by` steps brings to the same place are
/// the same.
proof fn lemma_turn_apart(a: int, b: int, by: int)
    requires
        0 <= a < 12,
        0 <= b < 12,
        (a + by) % 12 == (b + by) % 12,
    ensures
        a == b,
{
}

/// One trial of the moved notes against the winner of the notes, carried
/// along with them.
proof fn lemma_moved_winner_beats(notes: Seq<i32>, by: int, r2: int, t2: int)
    requires
        can_transpose(notes, by),
        keeps_root_first(notes, by),
        is_best(notes, best_root(notes), best_template(notes)),
        0 <= r2 < 12,
        0 <= t2 < 42,
    ensures
        ({
            let moved = transposed(notes, by);
            let new_root = (best_root(notes) + by) % 12;
            let t = best_template(notes);
            ||| score_of(moved, new_root, t) < score_of(moved, r2, t2)
            ||| score_of(moved, new_root, t) == score_of(moved, r2, t2) && tried_no_later(
                new_root,
                t,
                r2,
                t2,
            )
        }),
{
    let root = best_root(notes);
    let t = best_template(notes);
    let old_r2 = (r2 - by) % 12;
    lemma_turn(r2, by);
    lemma_transposed_scores(notes, by, root, t);
    lemma_transposed_scores(notes, by, old_r2, t2);
    if (root + by) % 12 == (old_r2 + by) % 12 {
        lemma_turn_apart(root, old_r2, by);
    }
}

/// Transposition: moving the notes up by `by` semitones moves the root of
/// the name `by` places round the root-name table and keeps the suffix,
/// wherever the winning root stays the first of the roots that tie with it.
pub proof fn lemma_transposition(notes: Seq<i32>, by: int)
    requires
        0 <= by < 12,
        can_transpose(notes, by),
        keeps_root_first(notes, by),
    ensures
        best_root(transposed(notes, by)) == (best_root(notes) + by) % 12,
        best_template(transposed(notes, by)) == best_template(notes),
        chord_name(transposed(notes, by)) == chord_label(
            root_name((best_root(notes) + by) % 12),
            template_name(best_template(notes)),
        ),
{
    let moved = transposed(notes, by);
    let new_root = (best_root(notes) + by) % 12;
    let t = best_template(notes);
    lemma_best_exists(notes);
    assert forall|r2: int, t2: int| 0 <= r2 < 12 && 0 <= t2 < 42 implies {
        ||| score_of(moved, new_root, t) < #[trigger] score_of(moved, r2, t2)
        ||| score_of(moved, new_root, t) == score_of(moved, r2, t2) && tried_no_later(
            new_root,
            t,
            r2,
            t2,
        )
    } by {
        lemma_moved_winner_beats(notes, by, r2, t2);
    }
    lemma_best_exists(moved);
}

/// Where a root that ties with the winning root is carried below it, the
/// root of the name does not move with the notes.
pub proof fn lemma_transposition_needs_first_root(notes: Seq<i32>, by: int)
    requires
        0 <= by < 12,
        can_transpose(notes, by),
        !keeps_root_first(notes, by),
    ensures
        best_root(transposed(notes, by)) != (best_root(notes) + by) % 12,
{
    let moved = transposed(notes, by);
    let root = best_root(notes);
    let new_root = (root + by) % 12;
    lemma_best_exists(notes);
    lemma_best_exists(moved);
    let (r2, t2) = choose|r2: int, t2: int|
        0 <= r2 < 12 && 0 <= t2 < 42 && #[trigger] score_of(notes, r2, t2) == lowest_score(notes)
            && (r2 + by) % 12 < new_root;
    lemma_transposed_scores(notes, by, r2, t2);
    if best_root(moved) == new_root {
        let new_t = best_template(moved);
        lemma_transposed_scores(notes, by, root, new_t);
    }
}

/// The pitch classes that row `t` of the database sounds when built on `root`.
pub open spec fn chord_pitch_classes(root: int, t: int) -> Set<i32> {
    Set::new(
        |p: i32| 0 <= p < 12 && template_intervals(t).contains(interval_above(p as int, root) as i32),
    )
}

/// The notes that row `t` of the database sounds when built on the note `root`.
pub open spec fn chord_tones(root: int, t: int) -> Set<i32> {
    template_intervals(t).map(|i: i32| (root + i) as i32)
}

/// Where `played` holds the pitch classes of `sounded` turned back by `root`
/// steps, `played` is the interval set `asked` exactly when `sounded` is
/// `asked` turned forth by `root` steps.
proof fn lemma_turned_sets(played: Set<i32>, asked: Set<i32>, sounded: Set<i32>, root: int)
    requires
        forall|i: i32| asked.contains(i) ==> 0 <= i < 12,
        forall|p: i32| sounded.contains(p) ==> 0 <= p < 12,
        forall|i: i32|
            played.contains(i) <==> 0 <= i < 12 && sounded.contains(((i + root) % 12) as i32),
    ensures
        played == asked <==> sounded == Set::new(
            |p: i32| 0 <= p < 12 && asked.contains(interval_above(p as int, root) as i32),
        ),
{
    let chord = Set::new(
        |p: i32| 0 <= p < 12 && asked.contains(interval_above(p as int, root) as i32),
    );
    if played == asked {
        assert forall|p: i32| sounded.contains(p) <==> chord.contains(p) by {
            if 0 <= p < 12 {
                lemma_turn(p as int, root);
            }
        }
        assert(sounded =~= chord);
    }
    if sounded == chord {
        assert forall|i: i32| played.contains(i) <==> asked.contains(i) by {
            if 0 <= i < 12 {
                lemma_turn(i as int, root);
            }
        }
        assert(played =~= asked);
    }
}

/// A trial scores zero exactly when the notes sound the pitch classes of the
/// trial's chord and no others.
pub proof fn lemma_zero_score(notes: Seq<i32>, root: int, t: int)
    requires
        0 <= t < 42,
    ensures
        score_of(notes, root, t) == 0 <==> pitch_classes(notes) == chord_pitch_classes(root, t),
{
    let played = relative_intervals(notes, root).to_set();
    let asked = template_intervals(t);
    let sounded = pitch_classes(notes);
    assert(forall|i: i32| asked.contains(i) ==> 0 <= i < 12) by {
        lemma_templates_well_formed();
    }
    lemma_mismatch_zero(asked, played);
    lemma_intervals_from_pitch_classes(notes, root);
    assert forall|p: i32| sounded.contains(p) implies 0 <= p < 12 by {
        lemma_intervals_from_pitch_classes(notes, 0);
    }
    lemma_turned_sets(played, asked, sounded, root);
}

/// Trial `(root, t)` is the first, in the order of trials, whose chord
/// sounds exactly the pitch classes `classes`.
pub open spec fn is_first_spelling(classes: Set<i32>, root: int, t: int) -> bool {
    &&& 0 <= root < 12
    &&& 0 <= t < 42
    &&& chord_pitch_classes(root, t) == classes
    &&& forall|r2: int, t2: int|
        0 <= r2 < 12 && 0 <= t2 < 42 && #[trigger] chord_pitch_classes(r2, t2) == classes
            ==> tried_no_later(root, t, r2, t2)
}

/// Row `t`, built on some root, is the first trial whose chord sounds
/// exactly the pitch classes `classes`.
pub open spec fn first_spelled_by(classes: Set<i32>, t: int) -> bool {
    exists|root: int| is_first_spelling(classes, root, t)
}

/// The chord tone that lies `i` semitones above the note `root` has the
/// pitch class that lies `i` steps above the pitch class of `root`.
proof fn lemma_tone_class(root: int, i: int)
    requires
        0 <= i < 12,
    ensures
        0 <= (root + i) % 12 < 12,
        ((root + i) % 12 - root % 12) % 12 == i,
{
}

/// Each pitch class is the pitch class of a tone within an octave above the
/// note `root`.
proof fn lemma_class_tone(root: int, p: int)
    requires
        0 <= p < 12,
    ensures
        0 <= (p - root % 12) % 12 < 12,
        (root + (p - root % 12) % 12) % 12 == p,
{
}

/// The notes that are the tones of a chord sound the chord's pitch classes.
proof fn lemma_tones_sound_chord(notes: Seq<i32>, root: int, t: int)
    requires
        0 <= t < 42,
        i32::MIN <= root,
        root + 11 <= i32::MAX,
        notes.to_set() == chord_tones(root, t),
    ensures
        pitch_classes(notes) == chord_pitch_classes(root % 12, t),
{
    let asked = template_intervals(t);
    let classes = relative_intervals(notes, 0);
    let chord = chord_pitch_classes(root % 12, t);
    assert(forall|i: i32| asked.contains(i) ==> 0 <= i < 12) by {
        lemma_templates_well_formed();
    }
    assert forall|p: i32| classes.to_set().contains(p) implies chord.contains(p) by {
        let k = choose|k: int| 0 <= k < classes.len() && classes[k] == p;
        assert(notes.to_set().contains(notes[k]));
        let i = choose|i: i32| asked.contains(i) && notes[k] == (root + i) as i32;
        lemma_tone_class(root, i as int);
    }
    assert forall|p: i32| chord.contains(p) implies classes.to_set().contains(p) by {
        let i = interval_above(p as int, root % 12) as i32;
        let n = (root + i) as i32;
        lemma_class_tone(root, p as int);
        assert(chord_tones(root, t).contains(n));
        let k = choose|k: int| 0 <= k < notes.len() && notes[k] == n;
        assert(classes[k] == p);
    }
}

/// The notes of a chord of the database score zero on that chord, so the
/// winning trial scores zero and sounds the same pitch classes.
pub proof fn lemma_exact_chord_scores_zero(notes: Seq<i32>, root: int, t: int)
    requires
        0 <= t < 42,
        i32::MIN <= root,
        root + 11 <= i32::MAX,
        notes.to_set() == chord_tones(root, t),
    ensures
        pitch_classes(notes) == chord_pitch_classes(root % 12, t),
        score_of(notes, root % 12, t) == 0,
        lowest_score(notes) == 0,
        chord_pitch_classes(best_root(notes), best_template(notes)) == pitch_classes(notes),
{
    lemma_tones_sound_chord(notes, root, t);
    lemma_zero_score(notes, root % 12, t);
    lemma_best_exists(notes);
    lemma_zero_score(notes, best_root(notes), best_template(notes));
}

/// Exactness: the notes of a chord of the database, built on any note, get
/// that chord's suffix in their name, wherever no chord tried before it,
/// and of another quality, sounds the same pitch classes.
pub proof fn lemma_exactness(notes: Seq<i32>, root: int, t: int)
    requires
        0 <= t < 42,
        i32::MIN <= root,
        root + 11 <= i32::MAX,
        notes.to_set() == chord_tones(root, t),
        first_spelled_by(chord_pitch_classes(root % 12, t), t),
    ensures
        lowest_score(notes) == 0,
        best_template(notes) == t,
        is_first_spelling(chord_pitch_classes(root % 12, t), best_root(notes), t),
        chord_name(notes) == chord_label(root_name(best_root(notes)), template_name(t)),
{
    let classes = chord_pitch_classes(root % 12, t);
    lemma_exact_chord_scores_zero(notes, root, t);
    lemma_best_exists(notes);
    let r1 = choose|r1: int| is_first_spelling(classes, r1, t);
    lemma_zero_score(notes, r1, t);
    assert forall|r2: int, t2: int| 0 <= r2 < 12 && 0 <= t2 < 42 implies {
        ||| score_of(notes, r1, t) < #[trigger] score_of(notes, r2, t2)
        ||| score_of(notes, r1, t) == score_of(notes, r2, t2) && tried_no_later(r1, t, r2, t2)
    } by {
        lemma_zero_score(notes, r2, t2);
    }
}

/// Where a chord of another quality, tried earlier, sounds the same pitch
/// classes, the name takes that chord's suffix instead.
pub proof fn lemma_exactness_needs_first_spelling(notes: Seq<i32>, root: int, t: int)
    requires
        0 <= t < 42,
        i32::MIN <= root,
        root + 11 <= i32::MAX,
        notes.to_set() == chord_tones(root, t),
        !first_spelled_by(chord_pitch_classes(root % 12, t), t),
    ensures
        best_template(notes) != t,
{
    let classes = chord_pitch_classes(root % 12, t);
    lemma_exact_chord_scores_zero(notes, root, t);
    lemma_best_exists(notes);
    let r1 = best_root(notes);
    if best_template(notes) == t {
        assert forall|r2: int, t2: int|
            0 <= r2 < 12 && 0 <= t2 < 42 && #[trigger] chord_pitch_classes(r2, t2)
                == classes implies tried_no_later(r1, t, r2, t2) by {
            lemma_zero_score(notes, r2, t2);
        }
        assert(is_first_spelling(classes, r1, t));
    }
}

/// Determinism: the name is a function of the list of notes. Lists that
/// hold the same notes in the same order have the same name.
pub proof fn lemma_deterministic(a: Seq<i32>, b: Seq<i32>)
    requires
        a.len() == b.len(),
        forall|k: int| 0 <= k < a.len() ==> a[k] == b[k],
    ensures
        chord_name(a) == chord_name(b),
{
    assert(a =~= b);
}

/// Totality: every list of notes, the empty one too, has a winning trial,
/// and so a name made of a root name of the table and a suffix of the
/// database.
pub proof fn lemma_total(notes: Seq<i32>)
    ensures
        0 <= best_root(notes) < 12,
        0 <= best_template(notes) < 42,
        is_best(notes, best_root(notes), best_template(notes)),
        chord_name(notes) == chord_label(
            root_name(best_root(notes)),
            template_name(best_template(notes)),
        ),
{
    lemma_best_exists(notes);
}

/// Every row of the database holds at least three intervals, and the first
/// row holds just three.
proof fn lemma_rows_hold_three()
    ensures
        template_intervals(0).len() == 3,
        forall|t: int| 0 <= t < 42 ==> (#[trigger] template_intervals(t)).len() >= 3,
{
}

/// No notes at all are named `c major`: every trial misses its whole row,
/// and the first of the shortest rows is tried first.
pub proof fn lemma_no_notes()
    ensures
        best_root(Seq::<i32>::empty()) == 0,
        best_template(Seq::<i32>::empty()) == 0,
        chord_name(Seq::<i32>::empty()) == "c major"@,
{
    let none = Seq::<i32>::empty();
    lemma_rows_hold_three();
    assert forall|root: int, t: int| #[trigger]
        score_of(none, root, t) == template_intervals(t).len() by {
        let played = relative_intervals(none, root).to_set();
        assert(template_intervals(t).difference(played) =~= template_intervals(t));
        assert(played.difference(template_intervals(t)) =~= Set::<i32>::empty());
    }
    assert(is_best(none, 0, 0));
    lemma_best_exists(none);
    reveal_strlit("c");
    reveal_strlit(" ");
    reveal_strlit("major");
    reveal_strlit("c major");
}

} // verus!

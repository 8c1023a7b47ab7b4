use chordname::db::{chord_db, root_names};
use chordname::get_chord_name;
use std::collections::BTreeSet;

fn pitch_classes(notes: &[i32]) -> BTreeSet<i32> {
    notes.iter().map(|n| n.rem_euclid(12)).collect()
}

/// The root and the database row that a name is made of.
fn parts(name: &str) -> (i32, usize) {
    let (root, suffix) = name.split_once(' ').unwrap();
    let root = root_names().iter().position(|r| *r == root).unwrap();
    let row = chord_db().iter().position(|t| t.base_name == suffix).unwrap();
    (root as i32, row)
}

fn samples() -> Vec<Vec<i32>> {
    vec![
        vec![],
        vec![60],
        vec![60, 64, 67],
        vec![60, 63, 67, 70],
        vec![61, 62, 63],
        vec![-7, 13, 100, 55],
        vec![60, 64, 68],
        vec![60, 63, 66, 69],
        vec![0, 2, 4, 5, 7, 9, 11],
        vec![48, 52, 55, 58, 62, 65, 69],
    ]
}

#[test]
fn octave_copies_do_not_change_the_name() {
    for notes in samples() {
        for k in [-5, -1, 1, 2, 7] {
            let mut more = notes.clone();
            more.extend(notes.iter().map(|n| n + 12 * k));
            assert_eq!(get_chord_name(more), get_chord_name(notes.clone()));
        }
    }
}

#[test]
fn repeated_notes_do_not_change_the_name() {
    for notes in samples() {
        for which in 0..notes.len() {
            for at in 0..=notes.len() {
                let mut more = notes.clone();
                more.insert(at, notes[which]);
                assert_eq!(get_chord_name(more), get_chord_name(notes.clone()));
            }
        }
    }
}

#[test]
fn same_pitch_classes_same_name() {
    assert_eq!(
        get_chord_name(vec![60, 64, 67]),
        get_chord_name(vec![112, 48, -5, 0, 64, 7])
    );
    assert_eq!(
        get_chord_name(vec![62, 65, 69, 72]),
        get_chord_name(vec![0, 2, 5, 9, 14, 14])
    );
}

#[test]
fn major_triads_move_with_their_root() {
    let roots = root_names();
    for by in 0..12 {
        let name = get_chord_name(vec![60 + by, 64 + by, 67 + by]);
        assert_eq!(name, format!("{} major", roots[by as usize]));
    }
}

#[test]
fn minor_sevenths_move_with_their_root_while_no_other_spelling_comes_first() {
    // c m7 is also d# 6, but c comes first; it moves up to a m7, which is c 6.
    let roots = root_names();
    for by in 0..9 {
        let name = get_chord_name(vec![60 + by, 63 + by, 67 + by, 70 + by]);
        assert_eq!(name, format!("{} m7", roots[by as usize]));
    }
    assert_eq!(get_chord_name(vec![69, 72, 76, 79]), "c 6");
}

#[test]
fn symmetric_chords_keep_the_first_of_their_roots() {
    assert_eq!(get_chord_name(vec![60, 64, 68]), "c aug");
    assert_eq!(get_chord_name(vec![61, 65, 69]), "c# aug");
    assert_eq!(get_chord_name(vec![63, 67, 71]), "d# aug");
    assert_eq!(get_chord_name(vec![64, 68, 72]), "c aug");
    assert_eq!(get_chord_name(vec![60, 63, 66, 69]), "c dim7");
    assert_eq!(get_chord_name(vec![62, 65, 68, 71]), "d dim7");
    assert_eq!(get_chord_name(vec![63, 66, 69, 72]), "c dim7");
}

#[test]
fn transposition_rotates_the_root_where_it_stays_first() {
    // The winning root of these is the only root that reaches the lowest score.
    let roots = root_names();
    for notes in [vec![60, 64, 67, 70], vec![60, 63, 67, 70, 74], vec![60, 64, 67, 71, 74]] {
        let (root, row) = parts(&get_chord_name(notes.clone()));
        for by in 0..12 {
            let moved: Vec<i32> = notes.iter().map(|n| n + by).collect();
            let (moved_root, moved_row) = parts(&get_chord_name(moved));
            assert_eq!(moved_root, (root + by) % 12);
            assert_eq!(moved_row, row);
            assert_eq!(roots[moved_root as usize], roots[((root + by) % 12) as usize]);
        }
    }
}

#[test]
fn every_chord_of_the_database_is_named_by_a_chord_of_its_pitch_classes() {
    let db = chord_db();
    for root in 0..12 {
        for template in &db {
            let notes: Vec<i32> = template.intervals.iter().map(|i| 60 + root + i).collect();
            let (named_root, named_row) = parts(&get_chord_name(notes.clone()));
            let named: Vec<i32> =
                db[named_row].intervals.iter().map(|i| named_root + i).collect();
            assert_eq!(pitch_classes(&named), pitch_classes(&notes));
        }
    }
}

#[test]
fn chords_without_another_spelling_get_their_own_suffix() {
    let db = chord_db();
    let always_exact = [
        "major", "7", "9", "11", "minor", "m9", "m11", "maj7", "maj9", "maj11", "mMaj7",
        "mMaj9", "mMaj11", "mMaj13", "7sus2", "maj7sus2", "7sus4", "9sus4", "maj7sus4",
        "maj9sus4", "dim", "dim7", "dim9", "dim11", "aug", "aug7", "aug9", "aug11", "aug13",
        "augMaj7", "augMaj9", "augMaj11", "augMaj13",
    ];
    for template in db.iter().filter(|t| always_exact.contains(&t.base_name)) {
        for root in 0..12 {
            let notes: Vec<i32> = template.intervals.iter().map(|i| 48 + root + i).collect();
            let name = get_chord_name(notes);
            let (_, suffix) = name.split_once(' ').unwrap();
            assert_eq!(suffix, template.base_name);
        }
    }
}

#[test]
fn chords_with_an_earlier_spelling_get_its_suffix() {
    // d# 6 is c m7, d# m6 is c ø, f sus2 is c sus4, f 13 is c m13.
    assert_eq!(get_chord_name(vec![63, 67, 70, 72]), "c m7");
    assert_eq!(get_chord_name(vec![63, 66, 70, 72]), "c ø");
    assert_eq!(get_chord_name(vec![65, 67, 72]), "c sus4");
    assert_eq!(get_chord_name(vec![65, 69, 72, 75, 67, 70, 74]), "c m13");
}

#[test]
fn repeated_calls_give_the_same_bytes() {
    for notes in samples() {
        let first = get_chord_name(notes.clone());
        let second = get_chord_name(notes.clone());
        assert_eq!(first.as_bytes(), second.as_bytes());
    }
}

#[test]
fn every_input_gets_a_name_of_the_tables() {
    let mut inputs = samples();
    inputs.push((0..12).collect());
    inputs.push((-40..40).collect());
    inputs.push(vec![i32::MIN, -1, 0, 1, i32::MAX]);
    inputs.push(vec![7; 1000]);
    for notes in inputs {
        let name = get_chord_name(notes);
        let (root, row) = parts(&name);
        assert!((0..12).contains(&root));
        assert!(row < 42);
    }
}

use chordname::get_chord_name;

#[test]
fn exact_c() {
    assert_eq!(get_chord_name(vec![60, 64, 67]), "c major");
    assert_eq!(get_chord_name(vec![60, 63, 67]), "c minor");
    assert_eq!(get_chord_name(vec![60, 64, 67, 69]), "c 6");
    assert_eq!(get_chord_name(vec![60, 64, 67, 71]), "c maj7");
}

#[test]
fn exact_other() {
    assert_eq!(get_chord_name(vec![61, 65, 68]), "c# major");
}

#[test]
fn c_many_notes() {
    assert_eq!(get_chord_name(vec![60, 64, 67, 72]), "c major");
    assert_eq!(
        get_chord_name(vec![60, 64, 67, 60 + 12, 64 + 12, 67 + 12]),
        "c major"
    );
}

#[test]
fn c_missing_notes() {
    assert_eq!(get_chord_name(vec![60, 64, 67, 72]), "c major");
    assert_eq!(get_chord_name(vec![60, 64]), "c major");
    assert_eq!(get_chord_name(vec![60, 63]), "c minor");
}

#[test]
fn c_variations() {
    assert_eq!(get_chord_name(vec![64, 67, 72]), "c major");
    assert_eq!(get_chord_name(vec![64, 67, 72, 72 + 10]), "c 7");
}

#[test]
fn no_notes_are_c_major() {
    assert_eq!(get_chord_name(vec![]), "c major");
    assert_eq!(get_chord_name(Vec::new()), "c major");
}

#[test]
fn single_notes() {
    assert_eq!(get_chord_name(vec![60]), "c major");
    assert_eq!(get_chord_name(vec![62]), "c sus2");
    assert_eq!(get_chord_name(vec![67]), "c major");
}

#[test]
fn negative_notes_are_reduced_to_pitch_classes() {
    assert_eq!(get_chord_name(vec![-12, -8, -5]), "c major");
    assert_eq!(get_chord_name(vec![-1, -4, -8]), "e major");
    assert_eq!(get_chord_name(vec![1000003, 7, -999]), "d sus4");
}

#[test]
fn extreme_notes_do_not_overflow() {
    assert_eq!(get_chord_name(vec![i32::MIN, i32::MAX, 0]), "c major");
    assert_eq!(get_chord_name(vec![i32::MAX, i32::MIN]), "c major");
}

#[test]
fn order_of_notes_makes_no_difference() {
    assert_eq!(get_chord_name(vec![67, 60, 64]), "c major");
    assert_eq!(get_chord_name(vec![82, 72, 67, 64]), "c 7");
}

#[test]
fn half_diminished_keeps_its_sign() {
    assert_eq!(get_chord_name(vec![60, 63, 66, 70]), "c ø");
    assert_eq!(get_chord_name(vec![62, 65, 68, 72]), "d ø");
}

#[test]
fn other_roots_and_qualities() {
    assert_eq!(get_chord_name(vec![62, 65, 69, 72]), "d m7");
    assert_eq!(get_chord_name(vec![60, 63, 66, 69]), "c dim7");
    assert_eq!(get_chord_name(vec![60, 62, 67]), "c sus2");
    assert_eq!(get_chord_name(vec![60, 63, 67, 69]), "c m6");
    assert_eq!(get_chord_name(vec![59, 62, 65, 69]), "d m6");
    assert_eq!(get_chord_name(vec![66, 70, 73]), "f# major");
    assert_eq!(get_chord_name(vec![71, 74, 78]), "b minor");
}

#[test]
fn lower_root_wins_a_tie_between_spellings() {
    // a m7 and c 6 are the same four pitch classes; c is tried first.
    assert_eq!(get_chord_name(vec![69, 72, 76, 79]), "c 6");
    // g sus4 and c sus2 likewise.
    assert_eq!(get_chord_name(vec![67, 72, 74]), "c sus2");
    // a m6 and f# ø likewise: f# comes before a.
    assert_eq!(get_chord_name(vec![57, 60, 64, 66]), "f# ø");
}

#[test]
fn earlier_row_wins_a_tie_on_one_root() {
    // c with e: major (row 0) and 7, minor and the rest all miss at least as much.
    assert_eq!(get_chord_name(vec![60, 64]), "c major");
    // c with g: major, minor, sus2 and sus4 each miss one note; major is first.
    assert_eq!(get_chord_name(vec![60, 67]), "c major");
}

#[test]
fn all_twelve_pitch_classes_still_get_a_name() {
    assert_eq!(get_chord_name((0..12).collect()), "c 13");
}

#[test]
fn a_foreign_note_costs_one_however_often_it_sounds() {
    assert_eq!(get_chord_name(vec![60, 64, 67, 61]), "c major");
    assert_eq!(get_chord_name(vec![60, 64, 67, 61, 61]), "c major");
    assert_eq!(get_chord_name(vec![60, 64, 67, 61, 73, 85, 97]), "c major");
}

//! The chord vocabulary: root names, chord templates, and the candidates
//! obtained by holding a set of played intervals against a template.

use std::collections::HashSet;
use vstd::prelude::*;
use vstd::std_specs::iter::IteratorSpec;
use vstd::string::StringExecFns;

verus! {

/// A chord quality: a display suffix bound to the intervals, in semitones
/// above a root, that make up the chord.
#[derive(Debug)]
pub struct ChordTemplate {
    pub base_name: &'static str,
    pub intervals: HashSet<i32>,
}

/// One template tried on one root against a set of played intervals.
#[derive(Debug)]
pub struct ChordCandidate<'a> {
    pub chord_template: &'a ChordTemplate,
    pub root: i32,
    pub missing_notes: Vec<i32>,
    pub extra_notes: Vec<i32>,
    pub score: usize,
}

/// The display names of the twelve pitch classes, sharps only.
pub open spec fn root_name_table() -> Seq<Seq<char>> {
    seq![
        "c"@, "c#"@, "d"@, "d#"@, "e"@, "f"@, "f#"@, "g"@, "g#"@, "a"@, "a#"@, "b"@,
    ]
}

/// The display name of pitch class `pc`.
pub open spec fn root_name(pc: int) -> Seq<char>
    recommends
        0 <= pc < 12,
{
    root_name_table()[pc]
}

/// A chord's display name: the root's name and the quality's suffix,
/// with one space between them.
pub open spec fn chord_label(root: Seq<char>, suffix: Seq<char>) -> Seq<char> {
    root + " "@ + suffix
}

/// The root-name table, indexed by pitch class.
pub fn root_names() -> (names: Vec<&'static str>)
    ensures
        names@.len() == 12,
        forall|pc: int| 0 <= pc < 12 ==> (#[trigger] names@[pc])@ == root_name(pc),
{
    vec!["c", "c#", "d", "d#", "e", "f", "f#", "g", "g#", "a", "a#", "b"]
}

/// The chord database: every known chord quality with its interval set.
/// The order of the rows is the order in which ties are broken.
pub open spec fn template_table() -> Seq<(Seq<char>, Set<i32>)> {
    seq![
        ("major"@, set![0i32, 4, 7]),
        ("7"@, set![0i32, 4, 7, 10]),
        ("9"@, set![0i32, 4, 7, 10, 2]),
        ("11"@, set![0i32, 4, 7, 10, 2, 5]),
        ("13"@, set![0i32, 4, 7, 10, 2, 5, 9]),
        ("minor"@, set![0i32, 3, 7]),
        ("m7"@, set![0i32, 3, 7, 10]),
        ("m9"@, set![0i32, 3, 7, 10, 2]),
        ("m11"@, set![0i32, 3, 7, 10, 2, 5]),
        ("m13"@, set![0i32, 3, 7, 10, 2, 5, 9]),
        ("maj7"@, set![0i32, 4, 7, 11]),
        ("maj9"@, set![0i32, 4, 7, 11, 2]),
        ("maj11"@, set![0i32, 4, 7, 11, 2, 5]),
        ("maj13"@, set![0i32, 4, 7, 11, 2, 5, 9]),
        ("mMaj7"@, set![0i32, 3, 7, 11]),
        ("mMaj9"@, set![0i32, 3, 7, 11, 2]),
        ("mMaj11"@, set![0i32, 3, 7, 11, 2, 5]),
        ("mMaj13"@, set![0i32, 3, 7, 11, 2, 5, 9]),
        ("sus2"@, set![0i32, 2, 7]),
        ("7sus2"@, set![0i32, 2, 7, 10]),
        ("maj7sus2"@, set![0i32, 2, 7, 11]),
        ("sus4"@, set![0i32, 5, 7]),
        ("7sus4"@, set![0i32, 5, 7, 10]),
        ("9sus4"@, set![0i32, 5, 7, 10, 2]),
        ("maj7sus4"@, set![0i32, 5, 7, 11]),
        ("maj9sus4"@, set![0i32, 5, 7, 11, 2]),
        ("dim"@, set![0i32, 3, 6]),
        ("dim7"@, set![0i32, 3, 6, 9]),
        ("dim9"@, set![0i32, 3, 6, 9, 2]),
        ("dim11"@, set![0i32, 3, 6, 9, 2, 5]),
        ("ø"@, set![0i32, 3, 6, 10]),
        ("aug"@, set![0i32, 4, 8]),
        ("aug7"@, set![0i32, 4, 8, 10]),
        ("aug9"@, set![0i32, 4, 8, 10, 2]),
        ("aug11"@, set![0i32, 4, 8, 10, 2, 5]),
        ("aug13"@, set![0i32, 4, 8, 10, 2, 5, 9]),
        ("augMaj7"@, set![0i32, 4, 8, 11]),
        ("augMaj9"@, set![0i32, 4, 8, 11, 2]),
        ("augMaj11"@, set![0i32, 4, 8, 11, 2, 5]),
        ("augMaj13"@, set![0i32, 4, 8, 11, 2, 5, 9]),
        ("6"@, set![0i32, 4, 7, 9]),
        ("m6"@, set![0i32, 3, 7, 9]),
    ]
}

/// The display suffix of template `t`.
pub open spec fn template_name(t: int) -> Seq<char>
    recommends
        0 <= t < 42,
{
    template_table()[t].0
}

/// The interval set of template `t`.
pub open spec fn template_intervals(t: int) -> Set<i32>
    recommends
        0 <= t < 42,
{
    template_table()[t].1
}

/// Every row of the database is a finite set of pitch classes that holds the root.
pub proof fn lemma_templates_well_formed()
    ensures
        forall|t: int|
            0 <= t < 42 ==> {
                &&& (#[trigger] template_intervals(t)).finite()
                &&& template_intervals(t).contains(0)
                &&& forall|i: i32| template_intervals(t).contains(i) ==> 0 <= i < 12
            },
{
}

/// `row` is row `t` of the database.
pub open spec fn is_row(row: ChordTemplate, t: int) -> bool {
    &&& row.base_name@ == template_name(t)
    &&& row.intervals@ == template_intervals(t)
}

/// Appends to `db` the next row of the database.
fn push_row(db: &mut Vec<ChordTemplate>, base_name: &'static str, intervals: Vec<i32>)
    requires
        base_name@ == template_name(old(db)@.len() as int),
        intervals@.to_set() =~= template_intervals(old(db)@.len() as int),
        forall|t: int| 0 <= t < old(db)@.len() ==> is_row(#[trigger] old(db)@[t], t),
    ensures
        final(db)@.len() == old(db)@.len() + 1,
        forall|t: int| 0 <= t < final(db)@.len() ==> is_row(#[trigger] final(db)@[t], t),
{
    let mut set: HashSet<i32> = HashSet::new();
    for i in 0..intervals.len()
        invariant
            set@ == intervals@.take(i as int).to_set(),
    {
        proof {
            intervals@.take(i as int).lemma_push_to_set_commute(intervals@[i as int]);
            assert(intervals@.take(i + 1) =~= intervals@.take(i as int).push(intervals@[i as int]));
        }
        set.insert(intervals[i]);
    }
    assert(intervals@.take(intervals@.len() as int) =~= intervals@);
    db.push(ChordTemplate { base_name, intervals: set });
}

/// The chord database, in table order.
pub fn chord_db() -> (db: Vec<ChordTemplate>)
    ensures
        db@.len() == 42,
        forall|t: int| 0 <= t < 42 ==> is_row(#[trigger] db@[t], t),
        forall|t: int| 0 <= t < 42 ==> (#[trigger] db@[t]).well_formed(),
{
    broadcast use Seq::lemma_push_to_set_commute;

    proof {
        lemma_templates_well_formed();
    }

    let mut db: Vec<ChordTemplate> = Vec::new();
    push_row(&mut db, "major", vec![0, 4, 7]);
    push_row(&mut db, "7", vec![0, 4, 7, 10]);
    push_row(&mut db, "9", vec![0, 4, 7, 10, 2]);
    push_row(&mut db, "11", vec![0, 4, 7, 10, 2, 5]);
    push_row(&mut db, "13", vec![0, 4, 7, 10, 2, 5, 9]);
    push_row(&mut db, "minor", vec![0, 3, 7]);
    push_row(&mut db, "m7", vec![0, 3, 7, 10]);
    push_row(&mut db, "m9", vec![0, 3, 7, 10, 2]);
    push_row(&mut db, "m11", vec![0, 3, 7, 10, 2, 5]);
    push_row(&mut db, "m13", vec![0, 3, 7, 10, 2, 5, 9]);
    push_row(&mut db, "maj7", vec![0, 4, 7, 11]);
    push_row(&mut db, "maj9", vec![0, 4, 7, 11, 2]);
    push_row(&mut db, "maj11", vec![0, 4, 7, 11, 2, 5]);
    push_row(&mut db, "maj13", vec![0, 4, 7, 11, 2, 5, 9]);
    push_row(&mut db, "mMaj7", vec![0, 3, 7, 11]);
    push_row(&mut db, "mMaj9", vec![0, 3, 7, 11, 2]);
    push_row(&mut db, "mMaj11", vec![0, 3, 7, 11, 2, 5]);
    push_row(&mut db, "mMaj13", vec![0, 3, 7, 11, 2, 5, 9]);
    push_row(&mut db, "sus2", vec![0, 2, 7]);
    push_row(&mut db, "7sus2", vec![0, 2, 7, 10]);
    push_row(&mut db, "maj7sus2", vec![0, 2, 7, 11]);
    push_row(&mut db, "sus4", vec![0, 5, 7]);
    push_row(&mut db, "7sus4", vec![0, 5, 7, 10]);
    push_row(&mut db, "9sus4", vec![0, 5, 7, 10, 2]);
    push_row(&mut db, "maj7sus4", vec![0, 5, 7, 11]);
    push_row(&mut db, "maj9sus4", vec![0, 5, 7, 11, 2]);
    push_row(&mut db, "dim", vec![0, 3, 6]);
    push_row(&mut db, "dim7", vec![0, 3, 6, 9]);
    push_row(&mut db, "dim9", vec![0, 3, 6, 9, 2]);
    push_row(&mut db, "dim11", vec![0, 3, 6, 9, 2, 5]);
    push_row(&mut db, "ø", vec![0, 3, 6, 10]);
    push_row(&mut db, "aug", vec![0, 4, 8]);
    push_row(&mut db, "aug7", vec![0, 4, 8, 10]);
    push_row(&mut db, "aug9", vec![0, 4, 8, 10, 2]);
    push_row(&mut db, "aug11", vec![0, 4, 8, 10, 2, 5]);
    push_row(&mut db, "aug13", vec![0, 4, 8, 10, 2, 5, 9]);
    push_row(&mut db, "augMaj7", vec![0, 4, 8, 11]);
    push_row(&mut db, "augMaj9", vec![0, 4, 8, 11, 2]);
    push_row(&mut db, "augMaj11", vec![0, 4, 8, 11, 2, 5]);
    push_row(&mut db, "augMaj13", vec![0, 4, 8, 11, 2, 5, 9]);
    push_row(&mut db, "6", vec![0, 4, 7, 9]);
    push_row(&mut db, "m6", vec![0, 3, 7, 9]);
    db
}

/// How far a set of played intervals is from a template: the number of
/// template intervals that were not played plus the number of played
/// intervals that the template does not hold.
pub open spec fn mismatch(template: Set<i32>, played: Set<i32>) -> nat {
    template.difference(played).len() + played.difference(template).len()
}

/// The values of `played` that lie outside `template`, each of them once, in
/// the order in which they first appear.
pub open spec fn extras_of(played: Seq<i32>, template: Set<i32>) -> Seq<i32>
    decreases played.len(),
{
    if played.len() == 0 {
        Seq::empty()
    } else {
        let earlier = extras_of(played.drop_last(), template);
        let x = played.last();
        if template.contains(x) || earlier.contains(x) {
            earlier
        } else {
            earlier.push(x)
        }
    }
}

/// `extras_of` lists the set difference `played \ template` without repetition.
pub proof fn lemma_extras_of(played: Seq<i32>, template: Set<i32>)
    ensures
        extras_of(played, template).no_duplicates(),
        extras_of(played, template).to_set() == played.to_set().difference(template),
    decreases played.len(),
{
    if played.len() > 0 {
        let front = played.drop_last();
        let x = played.last();
        lemma_extras_of(front, template);
        assert forall|v: i32| played.contains(v) <==> front.contains(v) || v == x by {
            if played.contains(v) {
                let k = choose|k: int| 0 <= k < played.len() && played[k] == v;
                if k < front.len() {
                    assert(front[k] == v);
                }
            }
            if front.contains(v) {
                let k = choose|k: int| 0 <= k < front.len() && front[k] == v;
                assert(played[k] == v);
            }
        }
        extras_of(front, template).lemma_push_to_set_commute(x);
    }
}

/// A set of pitch classes has at most twelve members.
pub proof fn lemma_pitch_class_set_len(s: Set<i32>)
    requires
        forall|i: i32| s.contains(i) ==> 0 <= i < 12,
    ensures
        s.finite(),
        s.len() <= 12,
{
    let all: Set<i32> = set![0i32, 1, 2, 3, 4, 5, 6, 7, 8, 9, 10, 11];
    vstd::set_lib::lemma_set_subset_finite(all, s);
    vstd::set_lib::lemma_len_subset(s, all);
}

/// A set of intervals is finite, as there are only so many `i32` values.
pub proof fn lemma_interval_set_finite(s: Set<i32>)
    ensures
        s.finite(),
{
    let ints = vstd::set_lib::set_int_range(i32::MIN as int, i32::MAX + 1);
    let narrow = |i: int| i as i32;
    vstd::set_lib::lemma_int_range(i32::MIN as int, i32::MAX + 1);
    ints.lemma_map_finite(narrow);
    assert forall|x: i32| s.contains(x) implies ints.map(narrow).contains(x) by {
        assert(ints.contains(x as int) && narrow(x as int) == x);
    }
    vstd::set_lib::lemma_set_subset_finite(ints.map(narrow), s);
}

/// The mismatch is zero exactly when what was played is the template.
pub proof fn lemma_mismatch_zero(template: Set<i32>, played: Set<i32>)
    ensures
        mismatch(template, played) == 0 <==> template == played,
{
    let missing = template.difference(played);
    let extra = played.difference(template);
    lemma_interval_set_finite(template);
    lemma_interval_set_finite(played);
    if mismatch(template, played) == 0 {
        missing.lemma_len0_is_empty();
        extra.lemma_len0_is_empty();
        assert forall|i: i32| template.contains(i) <==> played.contains(i) by {
            assert(!missing.contains(i) && !extra.contains(i));
        }
        assert(template =~= played);
    }
    if template == played {
        assert(missing =~= Set::<i32>::empty());
        assert(extra =~= Set::<i32>::empty());
    }
}

/// Whether `x` occurs in `list`.
fn contains_interval(list: &[i32], x: i32) -> (found: bool)
    ensures
        found == list@.contains(x),
{
    let mut k: usize = 0;
    while k < list.len()
        invariant
            k <= list@.len(),
            forall|j: int| 0 <= j < k ==> list@[j] != x,
        decreases list@.len() - k,
    {
        if list[k] == x {
            return true;
        }
        k += 1;
    }
    false
}

impl ChordTemplate {
    /// Every interval is a pitch class, and the root itself belongs to the chord.
    pub open spec fn well_formed(&self) -> bool {
        &&& self.intervals@.contains(0)
        &&& forall|i: i32| self.intervals@.contains(i) ==> 0 <= i < 12
    }

    /// The template intervals that do not occur in `intervals`.
    fn missing_from(&self, intervals: &[i32]) -> (missing: Vec<i32>)
        ensures
            missing@.no_duplicates(),
            missing@.to_set() == self.intervals@.difference(intervals@.to_set()),
    {
        let mut missing: Vec<i32> = Vec::new();
        let ghost keys = self.intervals.iter().remaining().unref();
        for interval in it: self.intervals.iter()
            invariant
                it.seq().unref() == keys,
                keys.no_duplicates(),
                keys.to_set() == self.intervals@,
                missing@.no_duplicates(),
                missing@.to_set() == keys.take(it.index()).to_set().difference(
                    intervals@.to_set(),
                ),
        {
            proof {
                let seen = keys.take(it.index());
                assert(keys.take(it.index() + 1) =~= seen.push(*interval));
                seen.lemma_push_to_set_commute(*interval);
                missing@.lemma_push_to_set_commute(*interval);
                assert(!seen.contains(*interval)) by {
                    if seen.contains(*interval) {
                        let j = choose|j: int| 0 <= j < seen.len() && seen[j] == *interval;
                        assert(keys[j] == keys[it.index()]);
                    }
                }
                assert(!missing@.to_set().contains(*interval));
            }
            if !contains_interval(intervals, *interval) {
                missing.push(*interval);
            }
        }
        assert(keys.take(keys.len() as int) =~= keys);
        missing
    }

    /// The values of `intervals` that the template does not hold.
    fn extra_in(&self, intervals: &[i32]) -> (extra: Vec<i32>)
        ensures
            extra@ == extras_of(intervals@, self.intervals@),
    {
        let mut extra: Vec<i32> = Vec::new();
        for k in 0..intervals.len()
            invariant
                extra@ == extras_of(intervals@.take(k as int), self.intervals@),
        {
            let x = intervals[k];
            proof {
                assert(intervals@.take(k + 1).drop_last() =~= intervals@.take(k as int));
            }
            if !self.intervals.contains(&x) && !contains_interval(extra.as_slice(), x) {
                extra.push(x);
            }
        }
        proof {
            assert(intervals@.take(intervals@.len() as int) =~= intervals@);
        }
        extra
    }

    /// Holds the played `intervals`, taken relative to `root`, against this
    /// template: what the template asks for and was not played is missing,
    /// what was played and the template does not hold is extra.
    pub fn create_candidate(&self, intervals: &[i32], root: i32) -> (c: ChordCandidate<'_>)
        requires
            self.well_formed(),
            forall|k: int| 0 <= k < intervals@.len() ==> 0 <= #[trigger] intervals@[k] < 12,
        ensures
            c.chord_template == self,
            c.root == root,
            c.missing_notes@.no_duplicates(),
            c.missing_notes@.to_set() == self.intervals@.difference(intervals@.to_set()),
            c.extra_notes@ == extras_of(intervals@, self.intervals@),
            c.score == mismatch(self.intervals@, intervals@.to_set()),
            c.score == 0 <==> intervals@.to_set() == self.intervals@,
            0 <= root < 12 ==> c.well_formed(),
    {
        let missing_notes = self.missing_from(intervals);
        let extra_notes = self.extra_in(intervals);
        proof {
            lemma_mismatch_zero(self.intervals@, intervals@.to_set());
            lemma_extras_of(intervals@, self.intervals@);
            missing_notes@.unique_seq_to_set();
            extra_notes@.unique_seq_to_set();
            assert forall|i: i32| intervals@.to_set().contains(i) implies 0 <= i < 12 by {
                let k = choose|k: int| 0 <= k < intervals@.len() && intervals@[k] == i;
                assert(0 <= intervals@[k] < 12);
            }
            lemma_pitch_class_set_len(missing_notes@.to_set());
            lemma_pitch_class_set_len(extra_notes@.to_set());
        }
        ChordCandidate::new(self, root, missing_notes, extra_notes)
    }
}

impl<'a> ChordCandidate<'a> {
    /// The root is a pitch class, and the score counts the missing and the
    /// extra notes.
    pub open spec fn well_formed(&self) -> bool {
        &&& 0 <= self.root < 12
        &&& self.score == self.missing_notes@.len() + self.extra_notes@.len()
    }

    /// A candidate scored by the number of its missing and extra notes.
    pub fn new(
        chord_template: &'a ChordTemplate,
        root: i32,
        missing_notes: Vec<i32>,
        extra_notes: Vec<i32>,
    ) -> (c: Self)
        requires
            missing_notes@.len() + extra_notes@.len() <= usize::MAX,
        ensures
            c.chord_template == chord_template,
            c.root == root,
            c.missing_notes == missing_notes,
            c.extra_notes == extra_notes,
            c.score == missing_notes@.len() + extra_notes@.len(),
            0 <= root < 12 ==> c.well_formed(),
    {
        let score = missing_notes.len() + extra_notes.len();
        Self { chord_template, root, missing_notes, extra_notes, score }
    }

    /// The chord's display name: root name, a space, the template's suffix.
    pub fn get_name(&self) -> (name: String)
        requires
            0 <= self.root < 12,
        ensures
            name@ == chord_label(root_name(self.root as int), self.chord_template.base_name@),
    {
        let names = root_names();
        let mut name = String::from_str(names[self.root as usize]);
        name.append(" ");
        name.append(self.chord_template.base_name);
        name
    }
}

} // verus!

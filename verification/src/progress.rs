//! The progress aggregator: joins the static exercise catalog with a
//! participant's passing submissions into a per-exercise progress view.

use vstd::prelude::*;
use crate::store::{Submission, SubmissionView};
use crate::types::ExerciseStatus;

verus! {

/// A submission row completes the exercise: it is for that exercise and its
/// tests passed.
pub open spec fn completes(s: SubmissionView, exercise: Seq<char>) -> bool {
    s.exercise_name == exercise && s.tests_passed
}

/// Some row in the sequence completes the exercise.
pub open spec fn is_completed(subs: Seq<SubmissionView>, exercise: Seq<char>) -> bool {
    exists|i: int| 0 <= i < subs.len() && completes(subs[i], exercise)
}

/// Some row completes the exercise and also passed format and lint.
pub open spec fn is_perfected(subs: Seq<SubmissionView>, exercise: Seq<char>) -> bool {
    exists|i: int|
        0 <= i < subs.len() && completes(subs[i], exercise) && subs[i].fmt_passed
            && subs[i].clippy_passed
}

/// At most one row per exercise name: what `Store::list_passing_submissions`
/// hands over, given the store invariant.
pub open spec fn unique_exercises(subs: Seq<SubmissionView>) -> bool {
    forall|i: int, j: int|
        0 <= i < j < subs.len() ==> subs[i].exercise_name != subs[j].exercise_name
}

/// What one entry of the progress view must say, given the catalog name it
/// stands for and the participant's passing submissions.
pub open spec fn entry_matches(
    e: ExerciseStatus,
    exercise: Seq<char>,
    subs: Seq<SubmissionView>,
) -> bool {
    &&& e.name@ == exercise
    &&& e.completed == is_completed(subs, exercise)
    &&& e.perfected == is_perfected(subs, exercise)
}

/// Builds the progress view: one entry per catalog name, in catalog order,
/// regardless of the order of the submissions.
///
/// An exercise is completed when a passing submission for it exists, and
/// perfected when that work also passed format and lint; a submission whose
/// exercise name is not in the catalog contributes nothing.
pub fn compute_progress(catalog: &Vec<String>, passing: &Vec<Submission>) -> (r: Vec<
    ExerciseStatus,
>)
    ensures
        r@.len() == catalog@.len(),
        forall|i: int|
            0 <= i < r@.len() ==> entry_matches(
                #[trigger] r@[i],
                catalog@[i]@,
                passing@.map_values(|s: Submission| s@),
            ),
        forall|i: int| 0 <= i < r@.len() ==> (#[trigger] r@[i].perfected ==> r@[i].completed),
{
    let ghost subs = passing@.map_values(|s: Submission| s@);
    let n = catalog.len();
    let mut out: Vec<ExerciseStatus> = Vec::new();
    let mut i: usize = 0;
    while i < n
        invariant
            0 <= i <= n,
            n == catalog@.len(),
            subs == passing@.map_values(|s: Submission| s@),
            out@.len() == i,
            forall|k: int| 0 <= k < i ==> entry_matches(#[trigger] out@[k], catalog@[k]@, subs),
            forall|k: int| 0 <= k < i ==> (#[trigger] out@[k].perfected ==> out@[k].completed),
        decreases n - i,
    {
        let name: &String = &catalog[i];
        let (completed, perfected) = lookup(name.as_str(), passing);
        let entry = ExerciseStatus { name: name.clone(), completed, perfected };
        out.push(entry);
        i += 1;
    }
    out
}

/// Scans the passing submissions for one exercise name; returns whether the
/// exercise is completed and whether it is perfected.
fn lookup(exercise: &str, passing: &Vec<Submission>) -> (r: (bool, bool))
    ensures
        r.0 == is_completed(passing@.map_values(|s: Submission| s@), exercise@),
        r.1 == is_perfected(passing@.map_values(|s: Submission| s@), exercise@),
        r.1 ==> r.0,
{
    let ghost subs = passing@.map_values(|s: Submission| s@);
    let m = passing.len();
    let mut completed = false;
    let mut perfected = false;
    let mut j: usize = 0;
    while j < m
        invariant
            0 <= j <= m,
            m == passing@.len(),
            subs == passing@.map_values(|s: Submission| s@),
            subs.len() == m,
            forall|k: int| 0 <= k < m ==> #[trigger] subs[k] == passing@[k]@,
            completed == (exists|k: int| 0 <= k < j && completes(#[trigger] subs[k], exercise@)),
            perfected == (exists|k: int|
                0 <= k < j && completes(#[trigger] subs[k], exercise@) && subs[k].fmt_passed
                    && subs[k].clippy_passed),
        decreases m - j,
    {
        let is_match = crate::text::str_eq(passing[j].exercise_name.as_str(), exercise);
        if is_match && passing[j].tests_passed {
            proof {
                assert(completes(subs[j as int], exercise@));
            }
            completed = true;
            if passing[j].fmt_passed && passing[j].clippy_passed {
                perfected = true;
            }
        }
        j += 1;
    }
    (completed, perfected)
}

/// Perfection never outruns completion: in every progress view built here,
/// a perfected entry is a completed one.
pub proof fn lemma_perfected_implies_completed(subs: Seq<SubmissionView>, exercise: Seq<char>)
    ensures
        is_perfected(subs, exercise) ==> is_completed(subs, exercise),
{
}

/// The view ignores the order in which submissions were stored: sequences
/// holding the same rows give the same completion and perfection verdicts.
pub proof fn lemma_progress_order_blind(
    s1: Seq<SubmissionView>,
    s2: Seq<SubmissionView>,
    exercise: Seq<char>,
)
    requires
        s1.to_multiset() == s2.to_multiset(),
    ensures
        is_completed(s1, exercise) == is_completed(s2, exercise),
        is_perfected(s1, exercise) == is_perfected(s2, exercise),
{
    broadcast use vstd::seq_lib::group_to_multiset_ensures;

    if is_completed(s1, exercise) {
        let i = choose|i: int| 0 <= i < s1.len() && completes(s1[i], exercise);
        assert(s1.to_multiset().contains(s1[i]));
        assert(s2.contains(s1[i]));
        let j = choose|j: int| 0 <= j < s2.len() && s2[j] == s1[i];
        assert(completes(s2[j], exercise));
    }
    if is_completed(s2, exercise) {
        let i = choose|i: int| 0 <= i < s2.len() && completes(s2[i], exercise);
        assert(s2.to_multiset().contains(s2[i]));
        assert(s1.contains(s2[i]));
        let j = choose|j: int| 0 <= j < s1.len() && s1[j] == s2[i];
        assert(completes(s1[j], exercise));
    }
    if is_perfected(s1, exercise) {
        let i = choose|i: int|
            0 <= i < s1.len() && completes(s1[i], exercise) && s1[i].fmt_passed
                && s1[i].clippy_passed;
        assert(s1.to_multiset().contains(s1[i]));
        assert(s2.contains(s1[i]));
        let j = choose|j: int| 0 <= j < s2.len() && s2[j] == s1[i];
        assert(completes(s2[j], exercise) && s2[j].fmt_passed && s2[j].clippy_passed);
    }
    if is_perfected(s2, exercise) {
        let i = choose|i: int|
            0 <= i < s2.len() && completes(s2[i], exercise) && s2[i].fmt_passed
                && s2[i].clippy_passed;
        assert(s2.to_multiset().contains(s2[i]));
        assert(s1.contains(s2[i]));
        let j = choose|j: int| 0 <= j < s1.len() && s1[j] == s2[i];
        assert(completes(s1[j], exercise) && s1[j].fmt_passed && s1[j].clippy_passed);
    }
}

/// With no submissions at all, every entry of the view reads "not completed,
/// not perfected".
pub proof fn lemma_empty_progress(subs: Seq<SubmissionView>, exercise: Seq<char>)
    requires
        subs.len() == 0,
    ensures
        !is_completed(subs, exercise),
        !is_perfected(subs, exercise),
{
}

} // verus!

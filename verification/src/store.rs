//! The submission store: participants and submission rows, with the
//! at-most-one-row-per-(participant, exercise) invariant.
//!
//! The store is the mathematical heart of the service.  Each operation is
//! specified over an abstract view (`StoreView`): sequences of participant
//! and submission records whose string fields are character sequences.

use vstd::prelude::*;
use crate::types::Name;

verus! {

/// A store operation failed on a constraint.
#[derive(Debug, Clone, Copy, PartialEq, Eq, Structural)]
pub enum StoreError {
    /// An identifier that must be unique was already present.
    Conflict,
}

/// One registered participant.
pub struct Participant {
    /// The unique, opaque identifier.
    pub id: String,
    /// The validated display name.  Duplicate names are permitted.
    pub name: String,
    /// When the participant registered.
    pub created_at: i64,
}

/// The mathematical image of a participant row.
pub struct ParticipantView {
    pub id: Seq<char>,
    pub name: Seq<char>,
    pub created_at: int,
}

impl View for Participant {
    type V = ParticipantView;

    open spec fn view(&self) -> ParticipantView {
        ParticipantView { id: self.id@, name: self.name@, created_at: self.created_at as int }
    }
}

/// One stored submission row.
pub struct Submission {
    /// The row identifier; regenerated on every overwrite.
    pub id: String,
    /// Which participant submitted.
    pub participant_id: String,
    /// Which exercise the source solves.
    pub exercise_name: String,
    /// The full submitted source text.
    pub source_code: String,
    /// Whether the exercise's tests passed.
    pub tests_passed: bool,
    /// Whether the lint check passed.
    pub clippy_passed: bool,
    /// Whether the format check passed.
    pub fmt_passed: bool,
    /// When this row was last written.
    pub submitted_at: i64,
}

/// The mathematical image of a submission row.
pub struct SubmissionView {
    pub id: Seq<char>,
    pub participant_id: Seq<char>,
    pub exercise_name: Seq<char>,
    pub source_code: Seq<char>,
    pub tests_passed: bool,
    pub clippy_passed: bool,
    pub fmt_passed: bool,
    pub submitted_at: int,
}

impl View for Submission {
    type V = SubmissionView;

    open spec fn view(&self) -> SubmissionView {
        SubmissionView {
            id: self.id@,
            participant_id: self.participant_id@,
            exercise_name: self.exercise_name@,
            source_code: self.source_code@,
            tests_passed: self.tests_passed,
            clippy_passed: self.clippy_passed,
            fmt_passed: self.fmt_passed,
            submitted_at: self.submitted_at as int,
        }
    }
}

impl Clone for Participant {
    /// Clones a row; the copy's view is the original's.
    fn clone(&self) -> (r: Self)
        ensures
            r@ == self@,
    {
        Participant { id: self.id.clone(), name: self.name.clone(), created_at: self.created_at }
    }
}

impl Clone for Submission {
    /// Clones a row; the copy's view is the original's.
    fn clone(&self) -> (r: Self)
        ensures
            r@ == self@,
    {
        Submission {
            id: self.id.clone(),
            participant_id: self.participant_id.clone(),
            exercise_name: self.exercise_name.clone(),
            source_code: self.source_code.clone(),
            tests_passed: self.tests_passed,
            clippy_passed: self.clippy_passed,
            fmt_passed: self.fmt_passed,
            submitted_at: self.submitted_at,
        }
    }
}

/// Some participant row carries this identifier.
pub open spec fn has_participant(ps: Seq<ParticipantView>, id: Seq<char>) -> bool {
    exists|i: int| 0 <= i < ps.len() && ps[i].id == id
}

/// The row belongs to the given (participant, exercise) pair.
pub open spec fn is_pair(s: SubmissionView, pid: Seq<char>, ex: Seq<char>) -> bool {
    s.participant_id == pid && s.exercise_name == ex
}

/// Some submission row belongs to the pair.
pub open spec fn has_pair(subs: Seq<SubmissionView>, pid: Seq<char>, ex: Seq<char>) -> bool {
    exists|i: int| 0 <= i < subs.len() && is_pair(subs[i], pid, ex)
}

/// No two participant rows share an identifier.
pub open spec fn unique_participant_ids(ps: Seq<ParticipantView>) -> bool {
    forall|i: int, j: int| 0 <= i < j < ps.len() ==> ps[i].id != ps[j].id
}

/// No two submission rows share a (participant, exercise) pair.
pub open spec fn unique_pairs(subs: Seq<SubmissionView>) -> bool {
    forall|i: int, j: int|
        0 <= i < j < subs.len() ==> !(is_pair(
            subs[i],
            subs[j].participant_id,
            subs[j].exercise_name,
        ))
}

/// The index of the row for the pair, when one exists.
pub open spec fn pair_index(subs: Seq<SubmissionView>, pid: Seq<char>, ex: Seq<char>) -> int {
    choose|i: int| 0 <= i < subs.len() && is_pair(subs[i], pid, ex)
}

/// Inserts the row, or overwrites the row that already holds its pair.
pub open spec fn upsert_seq(subs: Seq<SubmissionView>, row: SubmissionView) -> Seq<SubmissionView> {
    if has_pair(subs, row.participant_id, row.exercise_name) {
        subs.update(pair_index(subs, row.participant_id, row.exercise_name), row)
    } else {
        subs.push(row)
    }
}

/// The rows of the pair's participant whose tests passed, in store order.
pub open spec fn passing_of(subs: Seq<SubmissionView>, pid: Seq<char>) -> Seq<SubmissionView>
    decreases subs.len(),
{
    if subs.len() == 0 {
        Seq::empty()
    } else {
        let rest = passing_of(subs.drop_last(), pid);
        if subs.last().participant_id == pid && subs.last().tests_passed {
            rest.push(subs.last())
        } else {
            rest
        }
    }
}

/// How many rows belong to the participant and passed their tests.
pub open spec fn count_passing(subs: Seq<SubmissionView>, pid: Seq<char>) -> nat
    decreases subs.len(),
{
    if subs.len() == 0 {
        0
    } else {
        count_passing(subs.drop_last(), pid) + if subs.last().participant_id == pid
            && subs.last().tests_passed {
            1nat
        } else {
            0nat
        }
    }
}

/// How many rows belong to the participant and passed tests, format and lint.
pub open spec fn count_perfected(subs: Seq<SubmissionView>, pid: Seq<char>) -> nat
    decreases subs.len(),
{
    if subs.len() == 0 {
        0
    } else {
        count_perfected(subs.drop_last(), pid) + if subs.last().participant_id == pid
            && subs.last().tests_passed && subs.last().fmt_passed && subs.last().clippy_passed {
            1nat
        } else {
            0nat
        }
    }
}

/// How many rows belong to the participant at all.
pub open spec fn count_rows(subs: Seq<SubmissionView>, pid: Seq<char>) -> nat
    decreases subs.len(),
{
    if subs.len() == 0 {
        0
    } else {
        count_rows(subs.drop_last(), pid) + if subs.last().participant_id == pid {
            1nat
        } else {
            0nat
        }
    }
}

/// How many rows, over all participants, passed their tests.
pub open spec fn count_passing_all(subs: Seq<SubmissionView>) -> nat
    decreases subs.len(),
{
    if subs.len() == 0 {
        0
    } else {
        count_passing_all(subs.drop_last()) + if subs.last().tests_passed {
            1nat
        } else {
            0nat
        }
    }
}

/// How many rows, over all participants, passed tests, format and lint.
pub open spec fn count_perfected_all(subs: Seq<SubmissionView>) -> nat
    decreases subs.len(),
{
    if subs.len() == 0 {
        0
    } else {
        count_perfected_all(subs.drop_last()) + if subs.last().tests_passed
            && subs.last().fmt_passed && subs.last().clippy_passed {
            1nat
        } else {
            0nat
        }
    }
}

/// The abstract content of the store.
pub struct StoreView {
    pub participants: Seq<ParticipantView>,
    pub submissions: Seq<SubmissionView>,
}

/// Per-participant aggregate counts.
#[derive(Debug)]
pub struct UserStats {
    /// Rows for the participant whose tests passed.
    pub completed_count: usize,
    /// Rows for the participant that passed tests, format and lint.
    pub perfected_count: usize,
    /// All rows for the participant, passing or not.
    pub total_submissions: usize,
}

/// Aggregate counts across all participants.
#[derive(Debug)]
pub struct AdminStats {
    /// All registered participants.
    pub total_participants: usize,
    /// All rows whose tests passed.
    pub total_submissions: usize,
    /// All rows that passed tests, format and lint.
    pub total_perfected: usize,
}

/// The submission store.  Persisted state: participant rows and at most one
/// submission row per (participant, exercise) pair.
pub struct Store {
    participants: Vec<Participant>,
    submissions: Vec<Submission>,
}

impl View for Store {
    type V = StoreView;

    closed spec fn view(&self) -> StoreView {
        StoreView {
            participants: self.participants@.map_values(|p: Participant| p@),
            submissions: self.submissions@.map_values(|s: Submission| s@),
        }
    }
}

impl Store {
    /// Both uniqueness constraints hold.  Constructors establish this and
    /// every operation preserves it.
    pub open spec fn wf(&self) -> bool {
        unique_participant_ids(self@.participants) && unique_pairs(self@.submissions)
    }

    /// An empty store.
    pub fn new() -> (r: Store)
        ensures
            r.wf(),
            r@.participants.len() == 0,
            r@.submissions.len() == 0,
    {
        let r = Store { participants: Vec::new(), submissions: Vec::new() };
        proof {
            assert(r@.participants =~= Seq::<ParticipantView>::empty());
            assert(r@.submissions =~= Seq::<SubmissionView>::empty());
        }
        r
    }

    /// Inserts a new participant row.  Fails exactly when the identifier is
    /// already taken; the store is unchanged in that case.
    pub fn create_participant(&mut self, id: String, name: &Name, now: i64) -> (r: Result<
        (),
        StoreError,
    >)
        requires
            old(self).wf(),
        ensures
            final(self).wf(),
            final(self)@.submissions == old(self)@.submissions,
            match r {
                Ok(()) => !has_participant(old(self)@.participants, id@)
                    && final(self)@.participants == old(self)@.participants.push(
                    (ParticipantView { id: id@, name: name@, created_at: now as int }),
                ),
                Err(e) => e is Conflict && has_participant(old(self)@.participants, id@)
                    && final(self)@.participants == old(self)@.participants,
            },
    {
        if self.participant_exists(id.as_str()) {
            return Err(StoreError::Conflict);
        }
        let ghost idv = id@;
        let row = Participant { id, name: name.as_str().to_owned(), created_at: now };
        let ghost rv = row@;
        let ghost before = self@.participants;
        self.participants.push(row);
        proof {
            assert(self@.participants =~= before.push(rv));
            assert forall|i: int, j: int|
                0 <= i < j < self@.participants.len() implies self@.participants[i].id
                != self@.participants[j].id by {
                if j < before.len() {
                    assert(before[i].id != before[j].id);
                } else {
                    assert(self@.participants[j].id == idv);
                    assert(!has_participant(before, idv));
                    assert(before[i].id != idv);
                }
            }
        }
        Ok(())
    }

    /// The existence check used as the authorization gate before a submit.
    pub fn participant_exists(&self, id: &str) -> (r: bool)
        ensures
            r == has_participant(self@.participants, id@),
    {
        let n = self.participants.len();
        let mut i: usize = 0;
        while i < n
            invariant
                0 <= i <= n,
                n == self@.participants.len(),
                self@.participants.len() == self.participants@.len(),
                forall|k: int| 0 <= k < i ==> #[trigger] self@.participants[k].id != id@,
                forall|k: int|
                    0 <= k < n ==> #[trigger] self@.participants[k] == self.participants@[k]@,
            decreases n - i,
        {
            if crate::text::str_eq(self.participants[i].id.as_str(), id) {
                proof {
                    assert(self@.participants[i as int].id == id@);
                }
                return true;
            }
            i += 1;
        }
        false
    }

    /// Inserts the row, or overwrites the mutable fields of the row already
    /// holding its (participant, exercise) pair.  Afterwards exactly one row
    /// holds the pair, and its fields are this call's.
    pub fn upsert_submission(&mut self, row: Submission)
        requires
            old(self).wf(),
        ensures
            final(self).wf(),
            final(self)@.participants == old(self)@.participants,
            final(self)@.submissions == upsert_seq(old(self)@.submissions, row@),
            has_pair(final(self)@.submissions, row@.participant_id, row@.exercise_name),
    {
        let ghost before = self@.submissions;
        let ghost rv = row@;
        let n = self.submissions.len();
        let mut i: usize = 0;
        while i < n
            invariant
                0 <= i <= n,
                n == self.submissions@.len(),
                before == self@.submissions,
                before == old(self)@.submissions,
                before.len() == n,
                unique_pairs(before),
                row@ == rv,
                self@.participants == old(self)@.participants,
                unique_participant_ids(self@.participants),
                forall|k: int| 0 <= k < n ==> #[trigger] before[k] == self.submissions@[k]@,
                forall|k: int|
                    0 <= k < i ==> !is_pair(
                        #[trigger] before[k],
                        rv.participant_id,
                        rv.exercise_name,
                    ),
            decreases n - i,
        {
            proof {
                assert(before[i as int] == self.submissions@[i as int]@);
            }
            let same_participant = crate::text::str_eq(
                self.submissions[i].participant_id.as_str(),
                row.participant_id.as_str(),
            );
            let same_exercise = crate::text::str_eq(
                self.submissions[i].exercise_name.as_str(),
                row.exercise_name.as_str(),
            );
            if same_participant && same_exercise {
                proof {
                    assert(is_pair(before[i as int], rv.participant_id, rv.exercise_name));
                }
                self.submissions.set(i, row);
                proof {
                    assert(has_pair(before, rv.participant_id, rv.exercise_name));
                    let j = pair_index(before, rv.participant_id, rv.exercise_name);
                    assert(is_pair(before[j], rv.participant_id, rv.exercise_name));
                    assert(j == i as int) by {
                        if j != i as int {
                            assert(unique_pairs(before));
                        }
                    }
                    assert(self@.submissions =~= before.update(i as int, rv));
                    let now_subs = self@.submissions;
                    assert forall|a: int, b: int|
                        0 <= a < b < now_subs.len() implies !is_pair(
                        now_subs[a],
                        now_subs[b].participant_id,
                        now_subs[b].exercise_name,
                    ) by {
                        if a != i as int && b != i as int {
                            assert(!is_pair(
                                before[a],
                                before[b].participant_id,
                                before[b].exercise_name,
                            ));
                        } else if a == i as int {
                            assert(!is_pair(
                                before[a],
                                before[b].participant_id,
                                before[b].exercise_name,
                            ));
                        } else {
                            assert(!is_pair(
                                before[a],
                                before[b].participant_id,
                                before[b].exercise_name,
                            ));
                        }
                    }
                    assert(is_pair(now_subs[i as int], rv.participant_id, rv.exercise_name));
                }
                return ;
            }
            proof {
                assert(!is_pair(before[i as int], rv.participant_id, rv.exercise_name));
            }
            i += 1;
        }
        proof {
            assert(!has_pair(before, rv.participant_id, rv.exercise_name));
        }
        self.submissions.push(row);
        proof {
            assert(self@.submissions =~= before.push(rv));
            let now_subs = self@.submissions;
            assert forall|a: int, b: int|
                0 <= a < b < now_subs.len() implies !is_pair(
                now_subs[a],
                now_subs[b].participant_id,
                now_subs[b].exercise_name,
            ) by {
                if b < before.len() {
                    assert(!is_pair(before[a], before[b].participant_id, before[b].exercise_name));
                } else {
                    assert(now_subs[b] == rv);
                    assert(!is_pair(before[a], rv.participant_id, rv.exercise_name));
                }
            }
            assert(is_pair(now_subs[before.len() as int], rv.participant_id, rv.exercise_name));
        }
    }

    /// All rows for the participant whose tests passed, in store order.
    pub fn list_passing_submissions(&self, participant_id: &str) -> (r: Vec<Submission>)
        ensures
            r@.map_values(|s: Submission| s@) == passing_of(self@.submissions, participant_id@),
    {
        let n = self.submissions.len();
        let mut out: Vec<Submission> = Vec::new();
        proof {
            assert(out@.map_values(|s: Submission| s@) =~= passing_of(
                self@.submissions.subrange(0, 0),
                participant_id@,
            ));
        }
        let mut i: usize = 0;
        while i < n
            invariant
                0 <= i <= n,
                n == self.submissions@.len(),
                self@.submissions.len() == n,
                forall|k: int| 0 <= k < n ==> #[trigger] self@.submissions[k] == self.submissions@[k]@,
                out@.map_values(|s: Submission| s@) == passing_of(
                    self@.submissions.subrange(0, i as int),
                    participant_id@,
                ),
            decreases n - i,
        {
            let ghost prefix = self@.submissions.subrange(0, i as int);
            let ghost next_prefix = self@.submissions.subrange(0, i + 1);
            proof {
                assert(next_prefix.drop_last() =~= prefix);
                assert(next_prefix.last() == self@.submissions[i as int]);
            }
            let matches_pid = crate::text::str_eq(
                self.submissions[i].participant_id.as_str(),
                participant_id,
            );
            if matches_pid && self.submissions[i].tests_passed {
                let ghost out_before = out@.map_values(|s: Submission| s@);
                let copied = self.submissions[i].clone();
                out.push(copied);
                proof {
                    assert(out@.map_values(|s: Submission| s@) =~= out_before.push(
                        self@.submissions[i as int],
                    ));
                }
            }
            i += 1;
        }
        proof {
            assert(self@.submissions.subrange(0, n as int) =~= self@.submissions);
        }
        out
    }

    /// Aggregate counts for one participant, recomputed from the rows.
    pub fn user_stats(&self, participant_id: &str) -> (r: UserStats)
        ensures
            r.completed_count == count_passing(self@.submissions, participant_id@),
            r.perfected_count == count_perfected(self@.submissions, participant_id@),
            r.total_submissions == count_rows(self@.submissions, participant_id@),
    {
        let n = self.submissions.len();
        let mut completed: usize = 0;
        let mut perfected: usize = 0;
        let mut total: usize = 0;
        let mut i: usize = 0;
        while i < n
            invariant
                0 <= i <= n,
                n == self.submissions@.len(),
                self@.submissions.len() == n,
                forall|k: int|
                    0 <= k < n ==> #[trigger] self@.submissions[k] == self.submissions@[k]@,
                completed == count_passing(
                    self@.submissions.subrange(0, i as int),
                    participant_id@,
                ),
                perfected == count_perfected(
                    self@.submissions.subrange(0, i as int),
                    participant_id@,
                ),
                total == count_rows(self@.submissions.subrange(0, i as int), participant_id@),
                completed <= i && perfected <= i && total <= i,
            decreases n - i,
        {
            let ghost prefix = self@.submissions.subrange(0, i as int);
            let ghost next_prefix = self@.submissions.subrange(0, i + 1);
            proof {
                assert(next_prefix.drop_last() =~= prefix);
                assert(next_prefix.last() == self@.submissions[i as int]);
                assert(self@.submissions[i as int] == self.submissions@[i as int]@);
            }
            let matches_pid = crate::text::str_eq(
                self.submissions[i].participant_id.as_str(),
                participant_id,
            );
            if matches_pid {
                total += 1;
                if self.submissions[i].tests_passed {
                    completed += 1;
                    if self.submissions[i].fmt_passed && self.submissions[i].clippy_passed {
                        perfected += 1;
                    }
                }
            }
            i += 1;
            proof {
                assert(count_passing(next_prefix, participant_id@) == count_passing(
                    prefix,
                    participant_id@,
                ) + if next_prefix.last().participant_id == participant_id@
                    && next_prefix.last().tests_passed {
                    1nat
                } else {
                    0nat
                });
                assert(count_perfected(next_prefix, participant_id@) == count_perfected(
                    prefix,
                    participant_id@,
                ) + if next_prefix.last().participant_id == participant_id@
                    && next_prefix.last().tests_passed && next_prefix.last().fmt_passed
                    && next_prefix.last().clippy_passed {
                    1nat
                } else {
                    0nat
                });
                assert(count_rows(next_prefix, participant_id@) == count_rows(
                    prefix,
                    participant_id@,
                ) + if next_prefix.last().participant_id == participant_id@ {
                    1nat
                } else {
                    0nat
                });
            }
        }
        proof {
            assert(self@.submissions.subrange(0, n as int) =~= self@.submissions);
        }
        UserStats {
            completed_count: completed,
            perfected_count: perfected,
            total_submissions: total,
        }
    }

    /// Aggregate counts across the whole store.
    pub fn admin_stats(&self) -> (r: AdminStats)
        ensures
            r.total_participants == self@.participants.len(),
            r.total_submissions == count_passing_all(self@.submissions),
            r.total_perfected == count_perfected_all(self@.submissions),
    {
        let n = self.submissions.len();
        let mut passing: usize = 0;
        let mut perfected: usize = 0;
        let mut i: usize = 0;
        while i < n
            invariant
                0 <= i <= n,
                n == self.submissions@.len(),
                self@.submissions.len() == n,
                forall|k: int|
                    0 <= k < n ==> #[trigger] self@.submissions[k] == self.submissions@[k]@,
                passing == count_passing_all(self@.submissions.subrange(0, i as int)),
                perfected == count_perfected_all(self@.submissions.subrange(0, i as int)),
                passing <= i && perfected <= i,
            decreases n - i,
        {
            let ghost prefix = self@.submissions.subrange(0, i as int);
            let ghost next_prefix = self@.submissions.subrange(0, i + 1);
            proof {
                assert(next_prefix.drop_last() =~= prefix);
                assert(next_prefix.last() == self@.submissions[i as int]);
                assert(self@.submissions[i as int] == self.submissions@[i as int]@);
            }
            if self.submissions[i].tests_passed {
                passing += 1;
                if self.submissions[i].fmt_passed && self.submissions[i].clippy_passed {
                    perfected += 1;
                }
            }
            i += 1;
            proof {
                assert(count_passing_all(next_prefix) == count_passing_all(prefix)
                    + if next_prefix.last().tests_passed {
                    1nat
                } else {
                    0nat
                });
                assert(count_perfected_all(next_prefix) == count_perfected_all(prefix)
                    + if next_prefix.last().tests_passed && next_prefix.last().fmt_passed
                    && next_prefix.last().clippy_passed {
                    1nat
                } else {
                    0nat
                });
            }
        }
        proof {
            assert(self@.submissions.subrange(0, n as int) =~= self@.submissions);
        }
        AdminStats {
            total_participants: self.participants.len(),
            total_submissions: passing,
            total_perfected: perfected,
        }
    }

    /// Copies of all submission rows, in store order.
    pub fn list_all_rows(&self) -> (r: Vec<Submission>)
        ensures
            r@.map_values(|s: Submission| s@) == self@.submissions,
    {
        let n = self.submissions.len();
        let mut out: Vec<Submission> = Vec::new();
        let mut i: usize = 0;
        while i < n
            invariant
                0 <= i <= n,
                n == self.submissions@.len(),
                self@.submissions.len() == n,
                forall|k: int|
                    0 <= k < n ==> #[trigger] self@.submissions[k] == self.submissions@[k]@,
                out@.len() == i,
                forall|k: int| 0 <= k < i ==> (#[trigger] out@[k])@ == self@.submissions[k],
            decreases n - i,
        {
            let copied = self.submissions[i].clone();
            out.push(copied);
            i += 1;
        }
        proof {
            assert(out@.map_values(|s: Submission| s@) =~= self@.submissions);
        }
        out
    }

    /// Copies of all participant rows, in store order.
    pub fn list_participants(&self) -> (r: Vec<Participant>)
        ensures
            r@.map_values(|p: Participant| p@) == self@.participants,
    {
        let n = self.participants.len();
        let mut out: Vec<Participant> = Vec::new();
        let mut i: usize = 0;
        while i < n
            invariant
                0 <= i <= n,
                n == self.participants@.len(),
                self@.participants.len() == n,
                forall|k: int|
                    0 <= k < n ==> #[trigger] self@.participants[k] == self.participants@[k]@,
                out@.len() == i,
                forall|k: int| 0 <= k < i ==> (#[trigger] out@[k])@ == self@.participants[k],
            decreases n - i,
        {
            let copied = self.participants[i].clone();
            out.push(copied);
            i += 1;
        }
        proof {
            assert(out@.map_values(|p: Participant| p@) =~= self@.participants);
        }
        out
    }
}

} // verus!

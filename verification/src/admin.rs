//! The admin dashboard's tables: per-participant summaries and the most
//! recent submissions, both derived from the store on every request.

use vstd::prelude::*;
use crate::store::{count_passing, ParticipantView, Store, SubmissionView};
use crate::text;

verus! {

/// One participant's line on the dashboard.
#[derive(Debug)]
pub struct ParticipantSummary {
    /// The participant's identifier.
    pub id: String,
    /// The display name.
    pub name: String,
    /// How many of the participant's rows passed their tests.
    pub completed_count: usize,
    /// How many exercises the catalog offers.
    pub total_exercises: usize,
    /// When the participant last submitted, if ever.
    pub last_activity: Option<i64>,
}

/// One row of the recent-submissions table.
#[derive(Debug)]
pub struct SubmissionSummary {
    /// The submitting participant's display name.
    pub participant_name: String,
    /// Which exercise was submitted.
    pub exercise_name: String,
    /// Whether the tests passed.
    pub tests_passed: bool,
    /// Whether format and lint checks both passed.
    pub perfected: bool,
    /// When the row was written.
    pub submitted_at: i64,
    /// The submitted source text.
    pub source_code: String,
}

/// When the participant last submitted: the greatest timestamp among the
/// participant's rows, or nothing.
pub open spec fn last_activity_of(subs: Seq<SubmissionView>, pid: Seq<char>) -> Option<int>
    decreases subs.len(),
{
    if subs.len() == 0 {
        None
    } else {
        let rest = last_activity_of(subs.drop_last(), pid);
        if subs.last().participant_id == pid {
            match rest {
                Some(t) => if subs.last().submitted_at >= t {
                    Some(subs.last().submitted_at)
                } else {
                    Some(t)
                },
                None => Some(subs.last().submitted_at),
            }
        } else {
            rest
        }
    }
}

/// The display name of the participant with this identifier.
pub open spec fn name_of(ps: Seq<ParticipantView>, id: Seq<char>) -> Seq<char>
    decreases ps.len(),
{
    if ps.len() == 0 {
        Seq::empty()
    } else if ps.last().id == id {
        ps.last().name
    } else {
        name_of(ps.drop_last(), id)
    }
}

/// The view of an optional timestamp.
pub open spec fn opt_time(t: Option<i64>) -> Option<int> {
    match t {
        Some(x) => Some(x as int),
        None => None,
    }
}

/// The summary stands for this participant, given the store's rows.
pub open spec fn summarizes(
    s: ParticipantSummary,
    p: ParticipantView,
    subs: Seq<SubmissionView>,
    total: usize,
) -> bool {
    &&& s.id@ == p.id
    &&& s.name@ == p.name
    &&& s.completed_count == count_passing(subs, p.id)
    &&& s.total_exercises == total
    &&& opt_time(s.last_activity) == last_activity_of(subs, p.id)
}

impl Store {
    /// When the participant last submitted, if ever.
    pub fn last_activity(&self, participant_id: &str) -> (r: Option<i64>)
        ensures
            opt_time(r) == last_activity_of(self@.submissions, participant_id@),
    {
        let rows = self.list_all_rows();
        let n = rows.len();
        let mut best: Option<i64> = None;
        let mut i: usize = 0;
        proof {
            assert(self@.submissions.subrange(0, 0) =~= Seq::<SubmissionView>::empty());
        }
        while i < n
            invariant
                0 <= i <= n,
                n == rows@.len(),
                rows@.map_values(|s: crate::store::Submission| s@) == self@.submissions,
                self@.submissions.len() == n,
                opt_time(best) == last_activity_of(
                    self@.submissions.subrange(0, i as int),
                    participant_id@,
                ),
            decreases n - i,
        {
            let ghost prefix = self@.submissions.subrange(0, i as int);
            let ghost next = self@.submissions.subrange(0, i + 1);
            proof {
                assert(next.drop_last() =~= prefix);
                assert(next.last() == self@.submissions[i as int]);
                assert(self@.submissions[i as int] == rows@[i as int]@);
            }
            let same = text::str_eq(rows[i].participant_id.as_str(), participant_id);
            if same {
                let t = rows[i].submitted_at;
                best = match best {
                    Some(b) => if t >= b {
                        Some(t)
                    } else {
                        Some(b)
                    },
                    None => Some(t),
                };
            }
            i += 1;
        }
        proof {
            assert(self@.submissions.subrange(0, n as int) =~= self@.submissions);
        }
        best
    }
}

/// Builds one summary line per participant, in store order: the counts,
/// the catalog size and the last activity, each exact.
pub fn participant_summaries(store: &Store, total_exercises: usize) -> (r: Vec<
    ParticipantSummary,
>)
    requires
        store.wf(),
    ensures
        r@.len() == store@.participants.len(),
        forall|k: int|
            0 <= k < r@.len() ==> summarizes(
                #[trigger] r@[k],
                store@.participants[k],
                store@.submissions,
                total_exercises,
            ),
{
    let parts = store.list_participants();
    let n = parts.len();
    let mut rows: Vec<ParticipantSummary> = Vec::new();
    let mut i: usize = 0;
    while i < n
        invariant
            0 <= i <= n,
            n == parts@.len(),
            parts@.map_values(|p: crate::store::Participant| p@) == store@.participants,
            store@.participants.len() == n,
            rows@.len() == i,
            forall|k: int|
                0 <= k < i ==> summarizes(
                    #[trigger] rows@[k],
                    store@.participants[k],
                    store@.submissions,
                    total_exercises,
                ),
        decreases n - i,
    {
        proof {
            assert(store@.participants[i as int] == parts@[i as int]@);
        }
        let stats = store.user_stats(parts[i].id.as_str());
        let last = store.last_activity(parts[i].id.as_str());
        let summary = ParticipantSummary {
            id: parts[i].id.clone(),
            name: parts[i].name.clone(),
            completed_count: stats.completed_count,
            total_exercises,
            last_activity: last,
        };
        rows.push(summary);
        i += 1;
    }
    rows
}

/// The most recent submissions, newest first, at most `limit` of them, each
/// joined with its participant's display name.  Every returned line
/// describes one of the store's rows, and the list is a prefix of all the
/// rows' lines arranged newest first.
#[verifier::rlimit(100)]
pub fn recent_submissions(store: &Store, limit: usize) -> (r: Vec<SubmissionSummary>)
    requires
        store.wf(),
    ensures
        r@.len() == if store@.submissions.len() <= limit {
            store@.submissions.len() as int
        } else {
            limit as int
        },
        forall|i: int, j: int|
            0 <= i < j < r@.len() ==> (#[trigger] r@[i]).submitted_at >= (
            #[trigger] r@[j]).submitted_at,
        forall|i: int|
            0 <= i < r@.len() ==> line_in(#[trigger] r@[i], store@.submissions, store@.participants),
{
    broadcast use vstd::seq_lib::group_to_multiset_ensures;

    let rows = store.list_all_rows();
    let parts = store.list_participants();
    let ghost subs = store@.submissions;
    let n = rows.len();
    let mut summaries: Vec<SubmissionSummary> = Vec::new();
    let mut i: usize = 0;
    while i < n
        invariant
            0 <= i <= n,
            n == rows@.len(),
            rows@.map_values(|s: crate::store::Submission| s@) == subs,
            subs == store@.submissions,
            subs.len() == n,
            parts@.map_values(|p: crate::store::Participant| p@) == store@.participants,
            summaries@.len() == i,
            forall|k: int|
                0 <= k < i ==> describes(#[trigger] summaries@[k], subs[k], store@.participants),
        decreases n - i,
    {
        proof {
            assert(subs[i as int] == rows@[i as int]@);
        }
        let name = lookup_name(&parts, rows[i].participant_id.as_str());
        let summary = SubmissionSummary {
            participant_name: name,
            exercise_name: rows[i].exercise_name.clone(),
            tests_passed: rows[i].tests_passed,
            perfected: rows[i].fmt_passed && rows[i].clippy_passed,
            submitted_at: rows[i].submitted_at,
            source_code: rows[i].source_code.clone(),
        };
        summaries.push(summary);
        i += 1;
    }
    let ghost all_lines = summaries@;
    let sorted = sort_recent(summaries);
    let limited = truncate_summaries(sorted, limit);
    proof {
        assert forall|i: int| 0 <= i < limited@.len() implies line_in(
            #[trigger] limited@[i],
            store@.submissions,
            store@.participants,
        ) by {
            assert(limited@[i] == sorted@[i]);
            assert(sorted@.contains(sorted@[i]));
            assert(sorted@.to_multiset().contains(sorted@[i]));
            assert(all_lines.to_multiset().contains(sorted@[i]));
            assert(all_lines.contains(sorted@[i]));
            let k = choose|k: int| 0 <= k < all_lines.len() && all_lines[k] == sorted@[i];
            assert(describes(all_lines[k], subs[k], store@.participants));
            assert(describes(limited@[i], store@.submissions[k], store@.participants));
        }
    }
    limited
}

/// Finds the display name for an identifier, scanning newest row last.
fn lookup_name(parts: &Vec<crate::store::Participant>, id: &str) -> (r: String)
    ensures
        r@ == name_of(parts@.map_values(|p: crate::store::Participant| p@), id@),
{
    let ghost pv = parts@.map_values(|p: crate::store::Participant| p@);
    let n = parts.len();
    let mut j: usize = n;
    proof {
        assert(pv.subrange(0, n as int) =~= pv);
    }
    while j > 0
        invariant
            0 <= j <= n,
            n == parts@.len(),
            pv == parts@.map_values(|p: crate::store::Participant| p@),
            pv.len() == n,
            name_of(pv, id@) == name_of(pv.subrange(0, j as int), id@),
        decreases j,
    {
        let ghost upto = pv.subrange(0, j as int);
        let ghost rest = pv.subrange(0, j - 1);
        proof {
            assert(upto.drop_last() =~= rest);
            assert(upto.last() == pv[j - 1]);
            assert(pv[j - 1] == parts@[j - 1]@);
        }
        if text::str_eq(parts[j - 1].id.as_str(), id) {
            return parts[j - 1].name.clone();
        }
        j -= 1;
    }
    proof {
        assert(pv.subrange(0, 0) =~= Seq::<ParticipantView>::empty());
    }
    String::new()
}

/// The line stands for one of the store's rows.
pub open spec fn line_in(
    s: SubmissionSummary,
    subs: Seq<SubmissionView>,
    participants: Seq<ParticipantView>,
) -> bool {
    exists|k: int| 0 <= k < subs.len() && #[trigger] describes(s, subs[k], participants)
}

/// The summary line stands for this row.
pub open spec fn describes(
    s: SubmissionSummary,
    row: SubmissionView,
    participants: Seq<ParticipantView>,
) -> bool {
    &&& s.participant_name@ == name_of(participants, row.participant_id)
    &&& s.exercise_name@ == row.exercise_name
    &&& s.tests_passed == row.tests_passed
    &&& s.perfected == (row.fmt_passed && row.clippy_passed)
    &&& s.submitted_at as int == row.submitted_at
    &&& s.source_code@ == row.source_code
}

/// Sorts summary lines by timestamp, newest first; the result holds
/// exactly the input's lines.
#[verifier::rlimit(60)]
fn sort_recent(input: Vec<SubmissionSummary>) -> (r: Vec<SubmissionSummary>)
    ensures
        r@.len() == input@.len(),
        r@.to_multiset() == input@.to_multiset(),
        forall|i: int, j: int|
            0 <= i < j < r@.len() ==> (#[trigger] r@[i]).submitted_at >= (
            #[trigger] r@[j]).submitted_at,
{
    broadcast use vstd::seq_lib::group_to_multiset_ensures;
    broadcast use vstd::multiset::group_multiset_axioms;

    let mut rest = input;
    let mut out: Vec<SubmissionSummary> = Vec::new();
    proof {
        assert(out@.to_multiset() =~= vstd::multiset::Multiset::<SubmissionSummary>::empty());
        assert(out@.to_multiset().add(rest@.to_multiset()) =~= input@.to_multiset());
    }
    while rest.len() > 0
        invariant
            out@.len() + rest@.len() == input@.len(),
            out@.to_multiset().add(rest@.to_multiset()) == input@.to_multiset(),
            forall|i: int, j: int|
                0 <= i < j < out@.len() ==> (#[trigger] out@[i]).submitted_at >= (
                #[trigger] out@[j]).submitted_at,
            forall|a: int, b: int|
                0 <= a < out@.len() && 0 <= b < rest@.len() ==> (#[trigger] out@[a]).submitted_at
                    >= (#[trigger] rest@[b]).submitted_at,
        decreases rest@.len(),
    {
        let m = rest.len();
        let mut best: usize = 0;
        let mut j: usize = 1;
        while j < m
            invariant
                0 <= best < j <= m,
                m == rest@.len(),
                forall|k: int|
                    0 <= k < j ==> rest@[best as int].submitted_at >= (
                    #[trigger] rest@[k]).submitted_at,
            decreases m - j,
        {
            if rest[j].submitted_at > rest[best].submitted_at {
                best = j;
            }
            j += 1;
        }
        let ghost out_old = out@;
        let ghost rest_old = rest@;
        let x = rest.remove(best);
        out.push(x);
        proof {
            assert(out@ =~= out_old.push(rest_old[best as int]));
            assert(rest@ =~= rest_old.remove(best as int));
            let moved = rest_old[best as int];
            out_old.to_multiset_ensures();
            rest_old.to_multiset_ensures();
            assert(out@.to_multiset() =~= out_old.to_multiset().insert(moved));
            assert(rest@.to_multiset() =~= rest_old.to_multiset().remove(moved));
            assert(out_old.to_multiset().insert(moved).add(rest_old.to_multiset().remove(moved))
                =~= out_old.to_multiset().add(rest_old.to_multiset()));
            assert forall|a: int, b: int|
                0 <= a < out@.len() && 0 <= b < rest@.len() implies (
            #[trigger] out@[a]).submitted_at >= (#[trigger] rest@[b]).submitted_at by {
                let prior = if b < best {
                    rest_old[b]
                } else {
                    rest_old[b + 1]
                };
                assert(rest@[b] == prior);
                if a < out_old.len() {
                    assert(out@[a] == out_old[a]);
                } else {
                    assert(out@[a] == rest_old[best as int]);
                }
            }
        }
    }
    proof {
        assert(rest@.to_multiset() =~= vstd::multiset::Multiset::<SubmissionSummary>::empty());
        assert(out@.to_multiset() =~= out@.to_multiset().add(rest@.to_multiset()));
    }
    out
}

/// Keeps the first `limit` lines.
fn truncate_summaries(input: Vec<SubmissionSummary>, limit: usize) -> (r: Vec<SubmissionSummary>)
    requires
        forall|i: int, j: int|
            0 <= i < j < input@.len() ==> (#[trigger] input@[i]).submitted_at >= (
            #[trigger] input@[j]).submitted_at,
    ensures
        r@.len() == if input@.len() <= limit {
            input@.len() as int
        } else {
            limit as int
        },
        r@ == input@.subrange(0, r@.len() as int),
        forall|i: int, j: int|
            0 <= i < j < r@.len() ==> (#[trigger] r@[i]).submitted_at >= (
            #[trigger] r@[j]).submitted_at,
{
    let mut out: Vec<SubmissionSummary> = Vec::new();
    let n = input.len();
    let take = if n <= limit {
        n
    } else {
        limit
    };
    let mut i: usize = 0;
    while i < take
        invariant
            0 <= i <= take,
            take <= input@.len(),
            input@.len() == n,
            forall|a: int, b: int|
                0 <= a < b < input@.len() ==> (#[trigger] input@[a]).submitted_at >= (
                #[trigger] input@[b]).submitted_at,
            out@.len() == i,
            forall|a: int| 0 <= a < i ==> #[trigger] out@[a] == input@[a],
        decreases take - i,
    {
        let item = clone_summary(&input[i]);
        out.push(item);
        i += 1;
    }
    proof {
        assert(out@ =~= input@.subrange(0, out@.len() as int));
        assert forall|a: int, b: int|
            0 <= a < b < out@.len() implies (#[trigger] out@[a]).submitted_at >= (
        #[trigger] out@[b]).submitted_at by {
            assert(out@[a] == input@[a] && out@[b] == input@[b]);
        }
    }
    out
}

/// Copies one summary line.
fn clone_summary(s: &SubmissionSummary) -> (r: SubmissionSummary)
    ensures
        r == *s,
{
    SubmissionSummary {
        participant_name: clone_str(&s.participant_name),
        exercise_name: clone_str(&s.exercise_name),
        tests_passed: s.tests_passed,
        perfected: s.perfected,
        submitted_at: s.submitted_at,
        source_code: clone_str(&s.source_code),
    }
}

/// Clones a string, keeping its characters.
fn clone_str(s: &String) -> (r: String)
    ensures
        r == *s,
{
    s.clone()
}

} // verus!

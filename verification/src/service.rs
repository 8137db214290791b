//! The service operations: register a participant, accept a submission,
//! derive a progress view, and gate the admin dashboard.
//!
//! Each operation is a function from store state and request to next store
//! state and response; the HTTP layer around it only carries values.

use vstd::prelude::*;
use crate::ids;
use crate::progress;
use crate::store::{
    has_participant, upsert_seq, passing_of, Store, StoreError, Submission, SubmissionView,
    AdminStats,
};
use crate::text;
use crate::types::{
    Name, ProgressResponse, RegistrationResponse, SubmissionRequest, ValidationError,
};

verus! {

/// Why a request was refused.
#[derive(Debug, Clone, Copy, PartialEq, Eq, Structural)]
pub enum ApiError {
    /// The request's input failed validation.
    Validation(ValidationError),
    /// The submitting participant is unknown.
    Unauthorized,
    /// The admin token did not match.
    Forbidden,
    /// The store refused the write.
    Store(StoreError),
}

impl ApiError {
    /// The HTTP status code that reports this failure.
    pub fn status_code(&self) -> (r: u16)
        ensures
            *self is Validation ==> r == 400,
            *self is Unauthorized ==> r == 401,
            *self is Forbidden ==> r == 403,
            *self is Store ==> r == 500,
    {
        match self {
            ApiError::Validation(_) => 400,
            ApiError::Unauthorized => 401,
            ApiError::Forbidden => 403,
            ApiError::Store(_) => 500,
        }
    }
}

/// Every submission row belongs to a registered participant.  Holds of every
/// store that only the service operations have written.
pub open spec fn consistent(participants: Seq<crate::store::ParticipantView>, subs: Seq<
    SubmissionView,
>) -> bool {
    forall|i: int|
        0 <= i < subs.len() ==> has_participant(participants, #[trigger] subs[i].participant_id)
}

/// Registers a participant under a caller-supplied identifier.
///
/// Succeeds exactly when the identifier is fresh; the new row carries the
/// validated name.  On failure the store is unchanged.
pub fn register_with_id(store: &mut Store, name: &Name, id: String, now: i64) -> (r: Result<
    RegistrationResponse,
    ApiError,
>)
    requires
        old(store).wf(),
    ensures
        final(store).wf(),
        final(store)@.submissions == old(store)@.submissions,
        match r {
            Ok(resp) => resp.ulid@ == id@ && !has_participant(old(store)@.participants, id@)
                && final(store)@.participants == old(store)@.participants.push(
                (crate::store::ParticipantView { id: id@, name: name@, created_at: now as int }),
            ),
            Err(e) => e == ApiError::Store(StoreError::Conflict) && has_participant(
                old(store)@.participants,
                id@,
            ) && final(store)@.participants == old(store)@.participants,
        },
{
    let ulid = clone_string(&id);
    match store.create_participant(id, name, now) {
        Ok(()) => Ok(RegistrationResponse { ulid }),
        Err(e) => Err(ApiError::Store(e)),
    }
}

/// Registers a participant: validates the raw name, mints an identifier,
/// persists the row.
///
/// Name validation is exact: a name whose trimmed form is empty or longer
/// than 100 characters is refused with the matching validation error and the
/// store is untouched.  A store error can arise only when the freshly minted
/// identifier collides with an existing one, so a valid name registered
/// against an empty store always succeeds.
pub fn register(store: &mut Store, raw_name: &str, now: i64) -> (r: Result<
    RegistrationResponse,
    ApiError,
>)
    requires
        old(store).wf(),
    ensures
        final(store).wf(),
        final(store)@.submissions == old(store)@.submissions,
        match r {
            Ok(resp) => resp.ulid@.len() == 26 && Name::valid(text::trim_seq(raw_name@))
                && final(store)@.participants == old(store)@.participants.push(
                (crate::store::ParticipantView {
                    id: resp.ulid@,
                    name: text::trim_seq(raw_name@),
                    created_at: now as int,
                }),
            ),
            Err(e) => final(store)@.participants == old(store)@.participants && match e {
                ApiError::Validation(ValidationError::Empty) => text::trim_seq(raw_name@).len()
                    == 0,
                ApiError::Validation(ValidationError::TooLong) => text::trim_seq(raw_name@).len()
                    > 100,
                ApiError::Store(StoreError::Conflict) => Name::valid(text::trim_seq(raw_name@))
                    && old(store)@.participants.len() > 0,
                _ => false,
            },
        },
{
    let name = match Name::parse(raw_name) {
        Ok(n) => n,
        Err(e) => {
            return Err(ApiError::Validation(e));
        },
    };
    let id = ids::mint_ulid();
    register_with_id(store, &name, id, now)
}

/// Accepts a submission under a caller-supplied row identifier.
///
/// Refused with `Unauthorized` exactly when the participant is unknown, and
/// then nothing is written.  Otherwise the row is upserted: afterwards the
/// store holds exactly one row for the (participant, exercise) pair and its
/// fields are this request's.
pub fn submit_with_id(store: &mut Store, req: &SubmissionRequest, row_id: String, now: i64) -> (r:
    Result<(), ApiError>)
    requires
        old(store).wf(),
    ensures
        final(store).wf(),
        final(store)@.participants == old(store)@.participants,
        match r {
            Ok(()) => has_participant(old(store)@.participants, req.ulid@)
                && final(store)@.submissions == upsert_seq(
                old(store)@.submissions,
                (SubmissionView {
                    id: row_id@,
                    participant_id: req.ulid@,
                    exercise_name: req.exercise_name@,
                    source_code: req.source_code@,
                    tests_passed: req.tests_passed,
                    clippy_passed: req.clippy_passed,
                    fmt_passed: req.fmt_passed,
                    submitted_at: now as int,
                }),
            ),
            Err(e) => e is Unauthorized && !has_participant(old(store)@.participants, req.ulid@)
                && final(store)@.submissions == old(store)@.submissions,
        },
{
    if !store.participant_exists(req.ulid.as_str()) {
        return Err(ApiError::Unauthorized);
    }
    let row = Submission {
        id: row_id,
        participant_id: clone_string(&req.ulid),
        exercise_name: clone_string(&req.exercise_name),
        source_code: clone_string(&req.source_code),
        tests_passed: req.tests_passed,
        clippy_passed: req.clippy_passed,
        fmt_passed: req.fmt_passed,
        submitted_at: now,
    };
    store.upsert_submission(row);
    Ok(())
}

/// Accepts a submission: checks that the participant exists, then upserts
/// the row under a freshly minted row identifier.
pub fn submit(store: &mut Store, req: &SubmissionRequest, now: i64) -> (r: Result<(), ApiError>)
    requires
        old(store).wf(),
    ensures
        final(store).wf(),
        final(store)@.participants == old(store)@.participants,
        match r {
            Ok(()) => has_participant(old(store)@.participants, req.ulid@) && exists|rid: Seq<char>|
                rid.len() == 26 && final(store)@.submissions == upsert_seq(
                    old(store)@.submissions,
                    (SubmissionView {
                        id: rid,
                        participant_id: req.ulid@,
                        exercise_name: req.exercise_name@,
                        source_code: req.source_code@,
                        tests_passed: req.tests_passed,
                        clippy_passed: req.clippy_passed,
                        fmt_passed: req.fmt_passed,
                        submitted_at: now as int,
                    }),
                ),
            Err(e) => e is Unauthorized && !has_participant(old(store)@.participants, req.ulid@)
                && final(store)@.submissions == old(store)@.submissions,
        },
{
    let row_id = ids::mint_ulid();
    let ghost rid = row_id@;
    let r = submit_with_id(store, req, row_id, now);
    proof {
        if r is Ok {
            assert(rid.len() == 26 && final(store)@.submissions == upsert_seq(
                old(store)@.submissions,
                (SubmissionView {
                    id: rid,
                    participant_id: req.ulid@,
                    exercise_name: req.exercise_name@,
                    source_code: req.source_code@,
                    tests_passed: req.tests_passed,
                    clippy_passed: req.clippy_passed,
                    fmt_passed: req.fmt_passed,
                    submitted_at: now as int,
                }),
            ));
        }
    }
    r
}

/// Computes the progress view for a participant identifier: one entry per
/// catalog exercise, in catalog order, derived from the participant's
/// passing submissions.  An unknown identifier yields a view, not an error.
pub fn get_status(store: &Store, catalog: &Vec<String>, ulid: &str) -> (r: ProgressResponse)
    ensures
        r.exercises@.len() == catalog@.len(),
        forall|i: int|
            0 <= i < r.exercises@.len() ==> progress::entry_matches(
                #[trigger] r.exercises@[i],
                catalog@[i]@,
                passing_of(store@.submissions, ulid@),
            ),
        forall|i: int|
            0 <= i < r.exercises@.len() ==> (#[trigger] r.exercises@[i].perfected
                ==> r.exercises@[i].completed),
{
    let rows = store.list_passing_submissions(ulid);
    let exercises = progress::compute_progress(catalog, &rows);
    ProgressResponse { exercises }
}

/// Checks the admin token: access is granted exactly on a character-for-
/// character match.
pub fn admin_check(token: &str, expected: &str) -> (r: bool)
    ensures
        r == (token@ == expected@),
{
    text::str_eq(token, expected)
}

/// The admin dashboard's aggregate data, gated by the admin token.
pub fn admin_view(store: &Store, token: &str, expected: &str) -> (r: Result<AdminStats, ApiError>)
    ensures
        match r {
            Ok(stats) => token@ == expected@ && stats.total_participants
                == store@.participants.len() && stats.total_submissions
                == crate::store::count_passing_all(store@.submissions) && stats.total_perfected
                == crate::store::count_perfected_all(store@.submissions),
            Err(e) => e is Forbidden && token@ != expected@,
        },
{
    if !admin_check(token, expected) {
        return Err(ApiError::Forbidden);
    }
    Ok(store.admin_stats())
}

/// Clones a string, character for character.
fn clone_string(s: &String) -> (r: String)
    ensures
        r@ == s@,
{
    s.clone()
}

/// An unregistered identifier sees an empty progress view: in a consistent
/// store it has no rows, so its passing list is empty and no catalog entry
/// reads completed.
pub proof fn lemma_unregistered_sees_nothing(
    participants: Seq<crate::store::ParticipantView>,
    subs: Seq<SubmissionView>,
    pid: Seq<char>,
)
    requires
        !has_participant(participants, pid),
        consistent(participants, subs),
    ensures
        passing_of(subs, pid) == Seq::<SubmissionView>::empty(),
        forall|ex: Seq<char>| !progress::is_completed(passing_of(subs, pid), ex),
    decreases subs.len(),
{
    if subs.len() == 0 {
        assert(passing_of(subs, pid) =~= Seq::<SubmissionView>::empty());
    } else {
        let head = subs.drop_last();
        assert(consistent(participants, head)) by {
            assert(forall|i: int| 0 <= i < head.len() ==> #[trigger] head[i] == subs[i]);
        }
        lemma_unregistered_sees_nothing(participants, head, pid);
        assert(subs.last().participant_id != pid) by {
            assert(has_participant(participants, subs[subs.len() - 1].participant_id));
        }
    }
}

/// Registering preserves consistency; so does a submission accepted for an
/// existing participant.  Together: every store reachable through the
/// service operations stays consistent.
pub proof fn lemma_upsert_preserves_consistent(
    participants: Seq<crate::store::ParticipantView>,
    subs: Seq<SubmissionView>,
    row: SubmissionView,
)
    requires
        consistent(participants, subs),
        has_participant(participants, row.participant_id),
    ensures
        consistent(participants, upsert_seq(subs, row)),
{
    let out = upsert_seq(subs, row);
    assert forall|i: int| 0 <= i < out.len() implies has_participant(
        participants,
        #[trigger] out[i].participant_id,
    ) by {
        if crate::store::has_pair(subs, row.participant_id, row.exercise_name) {
            let j = crate::store::pair_index(subs, row.participant_id, row.exercise_name);
            if i != j {
                assert(out[i] == subs[i]);
            }
        } else {
            if i < subs.len() {
                assert(out[i] == subs[i]);
            }
        }
    }
}

/// Adding a participant preserves consistency of the existing rows.
pub proof fn lemma_register_preserves_consistent(
    participants: Seq<crate::store::ParticipantView>,
    subs: Seq<SubmissionView>,
    p: crate::store::ParticipantView,
)
    requires
        consistent(participants, subs),
    ensures
        consistent(participants.push(p), subs),
{
    assert forall|i: int| 0 <= i < subs.len() implies has_participant(
        participants.push(p),
        #[trigger] subs[i].participant_id,
    ) by {
        let j = choose|j: int|
            0 <= j < participants.len() && participants[j].id == subs[i].participant_id;
        assert(participants.push(p)[j].id == subs[i].participant_id);
    }
}

/// Last write wins: replaying any non-empty run of submissions for one
/// (participant, exercise) pair leaves exactly one row for the pair, and its
/// fields are the last request's.  With the store's per-call atomic upsert
/// this is what a batch of competing submissions converges to.
pub proof fn lemma_last_write_wins(subs: Seq<SubmissionView>, writes: Seq<SubmissionView>)
    requires
        crate::store::unique_pairs(subs),
        writes.len() > 0,
        forall|i: int|
            0 <= i < writes.len() ==> crate::store::is_pair(
                #[trigger] writes[i],
                writes[0].participant_id,
                writes[0].exercise_name,
            ),
    ensures
        ({
            let end = apply_upserts(subs, writes);
            let pid = writes[0].participant_id;
            let ex = writes[0].exercise_name;
            &&& crate::store::has_pair(end, pid, ex)
            &&& crate::store::unique_pairs(end)
            &&& end[crate::store::pair_index(end, pid, ex)] == writes.last()
        }),
    decreases writes.len(),
{
    let pid = writes[0].participant_id;
    let ex = writes[0].exercise_name;
    if writes.len() == 1 {
        lemma_upsert_one(subs, writes[0]);
        assert(apply_upserts(subs, writes) == upsert_seq(
            apply_upserts(subs, writes.drop_last()),
            writes.last(),
        ));
        assert(apply_upserts(subs, writes.drop_last()) == subs);
    } else {
        let head = writes.drop_last();
        assert(forall|i: int|
            0 <= i < head.len() ==> crate::store::is_pair(
                #[trigger] head[i],
                head[0].participant_id,
                head[0].exercise_name,
            ));
        lemma_last_write_wins(subs, head);
        let mid = apply_upserts(subs, head);
        lemma_upsert_one(mid, writes.last());
        assert(crate::store::is_pair(writes.last(), pid, ex));
    }
}

/// One upsert leaves exactly one row for its pair, holding its fields.
proof fn lemma_upsert_one(subs: Seq<SubmissionView>, row: SubmissionView)
    requires
        crate::store::unique_pairs(subs),
    ensures
        ({
            let end = upsert_seq(subs, row);
            &&& crate::store::has_pair(end, row.participant_id, row.exercise_name)
            &&& crate::store::unique_pairs(end)
            &&& end[crate::store::pair_index(end, row.participant_id, row.exercise_name)] == row
        }),
{
    let pid = row.participant_id;
    let ex = row.exercise_name;
    let end = upsert_seq(subs, row);
    if crate::store::has_pair(subs, pid, ex) {
        let j = crate::store::pair_index(subs, pid, ex);
        assert(crate::store::is_pair(subs[j], pid, ex));
        assert(end == subs.update(j, row));
        assert(crate::store::is_pair(end[j], pid, ex));
        assert(crate::store::unique_pairs(end)) by {
            assert forall|a: int, b: int|
                0 <= a < b < end.len() implies !crate::store::is_pair(
                end[a],
                end[b].participant_id,
                end[b].exercise_name,
            ) by {
                assert(!crate::store::is_pair(
                    subs[a],
                    subs[b].participant_id,
                    subs[b].exercise_name,
                ));
            }
        }
        let k = crate::store::pair_index(end, pid, ex);
        assert(crate::store::is_pair(end[k], pid, ex));
        if k != j {
            if k < j {
                assert(!crate::store::is_pair(end[k], end[j].participant_id, end[j].exercise_name));
            } else {
                assert(!crate::store::is_pair(end[j], end[k].participant_id, end[k].exercise_name));
            }
        }
        assert(end[k] == row);
    } else {
        assert(end == subs.push(row));
        assert(crate::store::is_pair(end[subs.len() as int], pid, ex));
        assert(crate::store::unique_pairs(end)) by {
            assert forall|a: int, b: int|
                0 <= a < b < end.len() implies !crate::store::is_pair(
                end[a],
                end[b].participant_id,
                end[b].exercise_name,
            ) by {
                if b < subs.len() {
                    assert(!crate::store::is_pair(
                        subs[a],
                        subs[b].participant_id,
                        subs[b].exercise_name,
                    ));
                } else {
                    assert(end[b] == row);
                    assert(!crate::store::has_pair(subs, pid, ex));
                    assert(!crate::store::is_pair(subs[a], pid, ex));
                }
            }
        }
        let k = crate::store::pair_index(end, pid, ex);
        assert(crate::store::is_pair(end[k], pid, ex));
        if k != subs.len() {
            assert(!crate::store::is_pair(end[k], end[subs.len() as int].participant_id, end[subs.len() as int].exercise_name));
        }
        assert(end[k] == row);
    }
}

/// The result of replaying a sequence of upserts, oldest first.
pub open spec fn apply_upserts(subs: Seq<SubmissionView>, writes: Seq<SubmissionView>) -> Seq<
    SubmissionView,
>
    decreases writes.len(),
{
    if writes.len() == 0 {
        subs
    } else {
        upsert_seq(apply_upserts(subs, writes.drop_last()), writes.last())
    }
}

} // verus!

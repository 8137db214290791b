//! The submission client's decisions: naming an exercise from its file
//! path, classifying a refused upload, and summarising a batch run.
//!
//! The client's file reads, tool runs and network calls stay outside; these
//! functions take their results as plain values.

use vstd::prelude::*;
use crate::text::{self, ends_with};

verus! {

/// The characters after the last `/` of a path.
pub open spec fn basename_of(p: Seq<char>) -> Seq<char>
    decreases p.len(),
{
    if p.len() == 0 {
        Seq::empty()
    } else if p.last() == '/' {
        Seq::empty()
    } else {
        basename_of(p.drop_last()).push(p.last())
    }
}

/// A file name's suffix starts right after its last separator.
proof fn lemma_basename_at(p: Seq<char>, j: int)
    requires
        0 <= j <= p.len(),
        forall|k: int| j <= k < p.len() ==> p[k] != '/',
        j > 0 ==> p[j - 1] == '/',
    ensures
        basename_of(p) == p.subrange(j, p.len() as int),
    decreases p.len(),
{
    if j == p.len() {
        assert(p.subrange(j, p.len() as int) =~= Seq::<char>::empty());
    } else {
        let head = p.drop_last();
        assert(forall|k: int| j <= k < head.len() ==> head[k] == p[k]);
        if j > 0 {
            assert(head[j - 1] == p[j - 1]);
        }
        lemma_basename_at(head, j);
        assert(basename_of(p) =~= head.subrange(j, head.len() as int).push(p.last()));
        assert(p.subrange(j, p.len() as int) =~= head.subrange(j, head.len() as int).push(
            p.last(),
        ));
    }
}

/// Derives the exercise name from a file path: the file name without its
/// `.rs` extension.  A path with no file name is refused, as is a file that
/// is not a `.rs` file.
pub fn extract_exercise_name(file_path: &str) -> (r: Result<String, &'static str>)
    ensures
        match r {
            Ok(name) => ends_with(basename_of(file_path@), ".rs"@) && name@ == basename_of(
                file_path@,
            ).subrange(0, basename_of(file_path@).len() - 3),
            Err(m) => (basename_of(file_path@).len() == 0 && m@ == "Invalid file path"@) || (
            basename_of(file_path@).len() > 0 && !ends_with(basename_of(file_path@), ".rs"@) && m@
                == "File must have .rs extension"@),
        },
{
    let n = file_path.unicode_len();
    let start: usize = match text::rfind_char(file_path, '/') {
        Some(i) => i + 1,
        None => 0,
    };
    proof {
        lemma_basename_at(file_path@, start as int);
    }
    let filename = text::substring(file_path, start, n);
    if filename.as_str().unicode_len() == 0 {
        return Err("Invalid file path");
    }
    let has_ext = text::str_ends_with(filename.as_str(), ".rs");
    if !has_ext {
        return Err("File must have .rs extension");
    }
    proof {
        reveal_strlit(".rs");
    }
    let m = filename.as_str().unicode_len();
    let stem = text::substring(filename.as_str(), 0, m - 3);
    proof {
        assert(stem@ =~= basename_of(file_path@).subrange(
            0,
            basename_of(file_path@).len() - 3,
        ));
    }
    Ok(stem)
}

/// How a refused upload is reported to the operator.
#[derive(Debug, Clone, Copy, PartialEq, Eq, Structural)]
pub enum SubmitFailure {
    /// The server did not recognise the token.
    InvalidToken,
    /// The server refused the submission's data.
    BadData,
    /// Any other failure status.
    Other,
}

/// Classifies the server's failure status for a submission upload.
pub fn submit_failure_kind(status: u16) -> (r: SubmitFailure)
    ensures
        status == 401 ==> r is InvalidToken,
        status == 400 ==> r is BadData,
        status != 401 && status != 400 ==> r is Other,
{
    if status == 401 {
        SubmitFailure::InvalidToken
    } else if status == 400 {
        SubmitFailure::BadData
    } else {
        SubmitFailure::Other
    }
}

/// One exercise's outcome within a batch run.
#[derive(Debug)]
pub struct SubmissionOutcome {
    /// The exercise was tested and uploaded successfully.
    pub ok: bool,
    /// Which exercise the outcome belongs to.
    pub exercise: String,
}

/// What a finished batch reports: how many submissions went through, and
/// the names of the exercises that failed, in order.
#[derive(Debug)]
pub struct BatchSummary {
    /// Successful submissions.
    pub succeeded: usize,
    /// The exercises that failed.
    pub failed: Vec<String>,
}

/// How many outcomes succeeded.
pub open spec fn count_succeeded(s: Seq<SubmissionOutcome>) -> nat
    decreases s.len(),
{
    if s.len() == 0 {
        0
    } else {
        count_succeeded(s.drop_last()) + if s.last().ok {
            1nat
        } else {
            0nat
        }
    }
}

/// The names of the failed outcomes, in order.
pub open spec fn failed_names(s: Seq<SubmissionOutcome>) -> Seq<Seq<char>>
    decreases s.len(),
{
    if s.len() == 0 {
        Seq::empty()
    } else {
        let rest = failed_names(s.drop_last());
        if s.last().ok {
            rest
        } else {
            rest.push(s.last().exercise@)
        }
    }
}

/// Totals a batch of per-exercise outcomes: the count of successes and the
/// failed exercises' names, in order.
pub fn summarize_batch(outcomes: Vec<SubmissionOutcome>) -> (r: BatchSummary)
    ensures
        r.succeeded == count_succeeded(outcomes@),
        r.failed@.map_values(|s: String| s@) == failed_names(outcomes@),
{
    let n = outcomes.len();
    let mut succeeded: usize = 0;
    let mut failed: Vec<String> = Vec::new();
    let mut i: usize = 0;
    proof {
        assert(outcomes@.subrange(0, 0) =~= Seq::<SubmissionOutcome>::empty());
        assert(failed@.map_values(|s: String| s@) =~~= failed_names(outcomes@.subrange(0, 0)));
    }
    while i < n
        invariant
            0 <= i <= n,
            n == outcomes@.len(),
            succeeded == count_succeeded(outcomes@.subrange(0, i as int)),
            succeeded <= i,
            failed@.map_values(|s: String| s@) =~~= failed_names(outcomes@.subrange(0, i as int)),
        decreases n - i,
    {
        let ghost sofar = outcomes@.subrange(0, i as int);
        let ghost next = outcomes@.subrange(0, i + 1);
        proof {
            assert(next.drop_last() =~= sofar);
            assert(next.last() == outcomes@[i as int]);
        }
        if outcomes[i].ok {
            succeeded += 1;
        } else {
            let ghost fv = failed@.map_values(|s: String| s@);
            let name = outcomes[i].exercise.clone();
            failed.push(name);
            proof {
                assert(failed@.map_values(|s: String| s@) =~~= fv.push(
                    outcomes@[i as int].exercise@,
                ));
            }
        }
        i += 1;
    }
    proof {
        assert(outcomes@.subrange(0, n as int) =~= outcomes@);
    }
    BatchSummary { succeeded, failed }
}

} // verus!

//! A stand-alone password strength check: the score and its feedback.

use vstd::prelude::*;
use crate::exercises::password_validator::{feedback_of, password_score};

verus! {

/// A password's score with feedback for what is missing.
#[derive(Debug)]
pub struct PasswordStrength {
    /// The score, 0 to 100.
    pub score: u8,
    /// One line per unmet check.
    pub feedback: Vec<String>,
}

/// Scores the password exactly as `password_score` describes, with one
/// feedback line per unmet check.
pub fn validate_password(password: &str) -> (r: PasswordStrength)
    ensures
        r.score == password_score(password@),
        r.feedback@.map_values(|m: String| m@) == feedback_of(password@),
{
    let full = crate::exercises::password_validator::validate_password(password);
    PasswordStrength { score: full.score, feedback: full.feedback }
}

} // verus!

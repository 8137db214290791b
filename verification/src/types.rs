//! Shared types of the course system: validated identity types and the
//! payloads exchanged between the submission client and the service.

use vstd::prelude::*;
use crate::text;

verus! {

/// Why a piece of raw input was rejected.
#[derive(Debug, Clone, Copy, PartialEq, Eq, Structural)]
pub enum ValidationError {
    /// The input was empty once trimmed.
    Empty,
    /// The trimmed input exceeds the length cap.
    TooLong,
}

impl ValidationError {
    /// A human-readable description of the rule a name violated.
    pub fn message(&self) -> (r: &'static str)
        ensures
            *self is Empty ==> r@ == "Name cannot be empty"@,
            *self is TooLong ==> r@ == "Name too long (max 100 characters)"@,
    {
        match self {
            ValidationError::Empty => "Name cannot be empty",
            ValidationError::TooLong => "Name too long (max 100 characters)",
        }
    }

    /// A human-readable description of the rule a token violated.
    pub fn token_message(&self) -> (r: &'static str)
        ensures
            *self is Empty ==> r@ == "Token cannot be empty"@,
            *self is TooLong ==> r@ == "Token too long"@,
    {
        match self {
            ValidationError::Empty => "Token cannot be empty",
            ValidationError::TooLong => "Token too long",
        }
    }
}

/// A validated participant name: trimmed, non-empty, and at most
/// `MAX_LENGTH` characters long.
#[derive(Debug)]
pub struct Name {
    s: String,
}

impl View for Name {
    type V = Seq<char>;

    closed spec fn view(&self) -> Seq<char> {
        self.s@
    }
}

impl Clone for Name {
    /// Clones the name; the copy carries the same characters.
    fn clone(&self) -> (r: Self)
        ensures
            r@ == self@,
    {
        proof {
            use_type_invariant(self);
        }
        Name { s: self.s.clone() }
    }
}

impl Name {
    /// Maximum allowed length for a participant name, in characters.
    pub const MAX_LENGTH: usize = 100;

    /// A character sequence acceptable as the content of a `Name`.
    pub open spec fn valid(s: Seq<char>) -> bool {
        1 <= s.len() <= 100 && s == text::trim_seq(s)
    }

    #[verifier::type_invariant]
    closed spec fn inv(&self) -> bool {
        Self::valid(self@)
    }

    /// Validates raw input: trims white space, then rejects an empty or
    /// over-long remainder.  Length is counted in characters.
    pub fn parse(raw: &str) -> (r: Result<Name, ValidationError>)
        ensures
            match r {
                Ok(n) => n@ == text::trim_seq(raw@) && Self::valid(n@),
                Err(e) => match e {
                    ValidationError::Empty => text::trim_seq(raw@).len() == 0,
                    ValidationError::TooLong => text::trim_seq(raw@).len() > 100,
                },
            },
    {
        let trimmed = text::trim(raw);
        let n = trimmed.as_str().unicode_len();
        if n == 0 {
            Err(ValidationError::Empty)
        } else if n > Name::MAX_LENGTH {
            Err(ValidationError::TooLong)
        } else {
            proof {
                text::lemma_trim_seq_idempotent(raw@);
            }
            Ok(Name { s: trimmed })
        }
    }

    /// Returns the validated name.
    pub fn as_str(&self) -> (r: &str)
        ensures
            r@ == self@,
            Self::valid(r@),
    {
        proof {
            use_type_invariant(self);
        }
        self.s.as_str()
    }
}

/// A participant's identifying token: an opaque, non-empty string minted by
/// the service.
#[derive(Debug)]
pub struct Token {
    s: String,
}

impl View for Token {
    type V = Seq<char>;

    closed spec fn view(&self) -> Seq<char> {
        self.s@
    }
}

impl Clone for Token {
    /// Clones the token; the copy carries the same characters.
    fn clone(&self) -> (r: Self)
        ensures
            r@ == self@,
    {
        Token { s: self.s.clone() }
    }
}

impl Token {
    /// Wraps an identifier that came from a trusted source (the service);
    /// no validation is applied.
    pub fn new(ulid: String) -> (r: Token)
        ensures
            r@ == ulid@,
    {
        Token { s: ulid }
    }

    /// Reads a token from untrusted input: trims white space and rejects an
    /// empty remainder.
    pub fn parse(raw: &str) -> (r: Result<Token, ValidationError>)
        ensures
            match r {
                Ok(t) => t@ == text::trim_seq(raw@) && t@.len() > 0,
                Err(e) => e is Empty && text::trim_seq(raw@).len() == 0,
            },
    {
        let trimmed = text::trim(raw);
        if trimmed.as_str().unicode_len() == 0 {
            Err(ValidationError::Empty)
        } else {
            Ok(Token { s: trimmed })
        }
    }

    /// Returns the token's characters.
    pub fn as_str(&self) -> (r: &str)
        ensures
            r@ == self@,
    {
        self.s.as_str()
    }
}

/// Payload sent to register a new participant.
#[derive(Debug)]
pub struct RegistrationRequest {
    /// The participant's chosen name, already validated.
    pub name: Name,
}

/// Payload returned by a successful registration.
#[derive(Debug)]
pub struct RegistrationResponse {
    /// The freshly minted identifier for the participant.
    pub ulid: String,
}

/// Payload sent to submit an exercise solution, together with the outcome of
/// the local checks.
#[derive(Debug)]
pub struct SubmissionRequest {
    /// The participant's identifier.
    pub ulid: String,
    /// Which exercise the source solves.
    pub exercise_name: String,
    /// The complete submitted source text.
    pub source_code: String,
    /// Whether the exercise's tests passed locally.
    pub tests_passed: bool,
    /// Whether the lint check passed.
    pub clippy_passed: bool,
    /// Whether the format check passed.
    pub fmt_passed: bool,
}

/// One exercise's standing within a progress view.
#[derive(Debug)]
pub struct ExerciseStatus {
    /// The exercise name.
    pub name: String,
    /// A submission with passing tests exists for this exercise.
    pub completed: bool,
    /// Completed, and the submission also passed format and lint checks.
    pub perfected: bool,
}

/// A participant's progress across the whole catalog.
#[derive(Debug)]
pub struct ProgressResponse {
    /// One entry per catalog exercise, in catalog order.
    pub exercises: Vec<ExerciseStatus>,
}

} // verus!

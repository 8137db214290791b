//! Password validation: a score from character-class checks, with
//! feedback for whatever is missing.

use vstd::prelude::*;
use crate::text;

verus! {

/// An upper-case ASCII letter.
pub open spec fn is_upper_char(c: char) -> bool {
    'A' <= c && c <= 'Z'
}

/// A lower-case ASCII letter.
pub open spec fn is_lower_char(c: char) -> bool {
    'a' <= c && c <= 'z'
}

/// One of the special characters the validator rewards.
pub open spec fn is_special_char(c: char) -> bool {
    c == '!' || c == '@' || c == '#' || c == '$' || c == '%' || c == '^' || c == '&' || c == '*'
}

/// The password holds an upper-case letter.
pub open spec fn has_upper(s: Seq<char>) -> bool {
    exists|k: int| 0 <= k < s.len() && is_upper_char(#[trigger] s[k])
}

/// The password holds a lower-case letter.
pub open spec fn has_lower(s: Seq<char>) -> bool {
    exists|k: int| 0 <= k < s.len() && is_lower_char(#[trigger] s[k])
}

/// The password holds a decimal digit.
pub open spec fn has_digit(s: Seq<char>) -> bool {
    exists|k: int| 0 <= k < s.len() && text::is_digit_char(#[trigger] s[k])
}

/// The password holds a rewarded special character.
pub open spec fn has_special(s: Seq<char>) -> bool {
    exists|k: int| 0 <= k < s.len() && is_special_char(#[trigger] s[k])
}

/// The score: 20 points for eight characters, 15 for each character class,
/// and 10 each for twelve and sixteen characters.
pub open spec fn password_score(s: Seq<char>) -> int {
    (if s.len() >= 8 {
        20int
    } else {
        0int
    }) + (if has_upper(s) {
        15int
    } else {
        0int
    }) + (if has_lower(s) {
        15int
    } else {
        0int
    }) + (if has_digit(s) {
        15int
    } else {
        0int
    }) + (if has_special(s) {
        15int
    } else {
        0int
    }) + (if s.len() >= 12 {
        10int
    } else {
        0int
    }) + (if s.len() >= 16 {
        10int
    } else {
        0int
    })
}

/// The feedback lines, in a fixed order: one per unmet check.
pub open spec fn feedback_of(s: Seq<char>) -> Seq<Seq<char>> {
    (if s.len() < 8 {
        seq!["Use at least 8 characters"@]
    } else {
        Seq::empty()
    }) + (if !has_upper(s) {
        seq!["Add an uppercase letter"@]
    } else {
        Seq::empty()
    }) + (if !has_lower(s) {
        seq!["Add a lowercase letter"@]
    } else {
        Seq::empty()
    }) + (if !has_digit(s) {
        seq!["Add a number"@]
    } else {
        Seq::empty()
    }) + (if !has_special(s) {
        seq!["Add a special character (!@#$%^&*)"@]
    } else {
        Seq::empty()
    })
}

/// How a password measures up: its score, feedback for what is missing,
/// and whether it counts as strong.
#[derive(Debug)]
pub struct PasswordStrength {
    /// The score, 0 to 100.
    pub score: u8,
    /// One line per unmet check.
    pub feedback: Vec<String>,
    /// The score reached 70.
    pub is_strong: bool,
}

impl PasswordStrength {
    /// An empty measurement: no points, no feedback, not strong.
    pub fn new() -> (r: PasswordStrength)
        ensures
            r.score == 0,
            r.feedback@.len() == 0,
            !r.is_strong,
    {
        PasswordStrength { score: 0, feedback: Vec::new(), is_strong: false }
    }
}

/// Scans the password for each rewarded character class.
fn scan_classes(password: &str) -> (r: (bool, bool, bool, bool))
    ensures
        r.0 == has_upper(password@),
        r.1 == has_lower(password@),
        r.2 == has_digit(password@),
        r.3 == has_special(password@),
{
    let n = password.unicode_len();
    let mut upper = false;
    let mut lower = false;
    let mut digit = false;
    let mut special = false;
    let mut i: usize = 0;
    while i < n
        invariant
            0 <= i <= n,
            n == password@.len(),
            upper == exists|k: int| 0 <= k < i && is_upper_char(#[trigger] password@[k]),
            lower == exists|k: int| 0 <= k < i && is_lower_char(#[trigger] password@[k]),
            digit == exists|k: int| 0 <= k < i && text::is_digit_char(#[trigger] password@[k]),
            special == exists|k: int| 0 <= k < i && is_special_char(#[trigger] password@[k]),
        decreases n - i,
    {
        let c = password.get_char(i);
        if 'A' <= c && c <= 'Z' {
            upper = true;
        }
        if 'a' <= c && c <= 'z' {
            lower = true;
        }
        if '0' <= c && c <= '9' {
            digit = true;
        }
        if c == '!' || c == '@' || c == '#' || c == '$' || c == '%' || c == '^' || c == '&' || c
            == '*' {
            special = true;
        }
        i += 1;
    }
    (upper, lower, digit, special)
}

/// Scores the password and names every unmet check.
pub fn validate_password(password: &str) -> (r: PasswordStrength)
    ensures
        r.score == password_score(password@),
        r.is_strong == (password_score(password@) >= 70),
        r.feedback@.map_values(|m: String| m@) == feedback_of(password@),
{
    let n = password.unicode_len();
    let (upper, lower, digit, special) = scan_classes(password);
    let mut score: u8 = 0;
    if n >= 8 {
        score += 20;
    }
    if upper {
        score += 15;
    }
    if lower {
        score += 15;
    }
    if digit {
        score += 15;
    }
    if special {
        score += 15;
    }
    if n >= 12 {
        score += 10;
    }
    if n >= 16 {
        score += 10;
    }
    let mut feedback: Vec<String> = Vec::new();
    let ghost f1 = if password@.len() < 8 {
        seq!["Use at least 8 characters"@]
    } else {
        Seq::<Seq<char>>::empty()
    };
    if n < 8 {
        feedback.push(String::from_str("Use at least 8 characters"));
    }
    proof {
        assert(feedback@.map_values(|m: String| m@) =~~= f1);
    }
    let ghost f2 = f1 + if !has_upper(password@) {
        seq!["Add an uppercase letter"@]
    } else {
        Seq::<Seq<char>>::empty()
    };
    if !upper {
        feedback.push(String::from_str("Add an uppercase letter"));
    }
    proof {
        assert(feedback@.map_values(|m: String| m@) =~~= f2);
    }
    let ghost f3 = f2 + if !has_lower(password@) {
        seq!["Add a lowercase letter"@]
    } else {
        Seq::<Seq<char>>::empty()
    };
    if !lower {
        feedback.push(String::from_str("Add a lowercase letter"));
    }
    proof {
        assert(feedback@.map_values(|m: String| m@) =~~= f3);
    }
    let ghost f4 = f3 + if !has_digit(password@) {
        seq!["Add a number"@]
    } else {
        Seq::<Seq<char>>::empty()
    };
    if !digit {
        feedback.push(String::from_str("Add a number"));
    }
    proof {
        assert(feedback@.map_values(|m: String| m@) =~~= f4);
    }
    let ghost f5 = f4 + if !has_special(password@) {
        seq!["Add a special character (!@#$%^&*)"@]
    } else {
        Seq::<Seq<char>>::empty()
    };
    if !special {
        feedback.push(String::from_str("Add a special character (!@#$%^&*)"));
    }
    proof {
        assert(feedback@.map_values(|m: String| m@) =~~= f5);
        assert(f5 =~~= feedback_of(password@));
    }
    let is_strong = score >= 70;
    PasswordStrength { score, feedback, is_strong }
}

/// The repeating character pattern the generator draws from: an upper-case
/// letter, a lower-case letter, a digit and a special character in turn.
pub open spec fn pattern_char(i: int) -> char {
    if i % 4 == 0 {
        'A'
    } else if i % 4 == 1 {
        'a'
    } else if i % 4 == 2 {
        '1'
    } else {
        '!'
    }
}

/// Produces a password of the requested length by cycling through the four
/// character classes, so any length of four or more passes every class
/// check.
pub fn generate_secure_password(length: usize) -> (r: String)
    ensures
        r@.len() == length,
        forall|i: int| 0 <= i < length ==> r@[i] == pattern_char(i),
{
    let mut out = String::new();
    let mut i: usize = 0;
    while i < length
        invariant
            0 <= i <= length,
            out@.len() == i,
            forall|k: int| 0 <= k < i ==> out@[k] == pattern_char(k),
        decreases length - i,
    {
        let c = if i % 4 == 0 {
            'A'
        } else if i % 4 == 1 {
            'a'
        } else if i % 4 == 2 {
            '1'
        } else {
            '!'
        };
        text::push_char(&mut out, c);
        i += 1;
    }
    out
}

/// Turns each feedback line into an actionable suggestion.
pub fn suggest_improvements(strength: &PasswordStrength) -> (r: Vec<String>)
    ensures
        r@.len() == strength.feedback@.len(),
        forall|i: int|
            0 <= i < r@.len() ==> (#[trigger] r@[i])@ == "Try this: "@
                + strength.feedback@[i]@,
{
    let n = strength.feedback.len();
    let mut out: Vec<String> = Vec::new();
    let mut i: usize = 0;
    while i < n
        invariant
            0 <= i <= n,
            n == strength.feedback@.len(),
            out@.len() == i,
            forall|k: int|
                0 <= k < i ==> (#[trigger] out@[k])@ == "Try this: "@ + strength.feedback@[k]@,
        decreases n - i,
    {
        let mut line = String::from_str("Try this: ");
        line.append(strength.feedback[i].as_str());
        out.push(line);
        i += 1;
    }
    out
}

} // verus!

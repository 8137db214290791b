//! Safe error handling with `Option` and `Result`.

use vstd::prelude::*;
use crate::text;

verus! {

/// Looks an email up in the user list.
pub fn find_user_by_email<'a>(users: &[&'a str], email: &str) -> (r: Option<&'a str>)
    ensures
        match r {
            Some(found) => found@ == email@ && exists|i: int|
                0 <= i < users@.len() && (#[trigger] users@[i])@ == email@,
            None => forall|i: int| 0 <= i < users@.len() ==> (#[trigger] users@[i])@ != email@,
        },
{
    let n = users.len();
    let mut i: usize = 0;
    while i < n
        invariant
            0 <= i <= n,
            n == users@.len(),
            forall|k: int| 0 <= k < i ==> (#[trigger] users@[k])@ != email@,
        decreases n - i,
    {
        if text::str_eq(users[i], email) {
            return Some(users[i]);
        }
        i += 1;
    }
    None
}

/// Reads a port number: succeeds exactly on decimal strings whose value
/// fits in a `u16`.
pub fn parse_port_number(input: &str) -> (r: Result<u16, &'static str>)
    ensures
        match r {
            Ok(v) => input@.len() > 0 && text::all_digits(input@) && v == text::dec_value(input@),
            Err(m) => (input@.len() == 0 || !text::all_digits(input@) || text::dec_value(input@)
                > u16::MAX) && m@ == "invalid port number"@,
        },
{
    match text::parse_u16(input) {
        Some(v) => Ok(v),
        None => Err("invalid port number"),
    }
}

/// A configuration value with the conventional fallback port.
pub fn get_config_or_default(config_value: Option<u32>) -> (r: u32)
    ensures
        match config_value {
            Some(v) => r == v,
            None => r == 8080,
        },
{
    match config_value {
        Some(v) => v,
        None => 8080,
    }
}

} // verus!

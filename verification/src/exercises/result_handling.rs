//! `Result` handling: making failure explicit in the type.

use vstd::prelude::*;
use crate::text;

verus! {

/// Reads a port number and checks its range: valid ports are 1 to 65535.
pub fn parse_port(input: &str) -> (r: Result<u16, &'static str>)
    ensures
        match r {
            Ok(v) => input@.len() > 0 && text::all_digits(input@) && v == text::dec_value(input@)
                && v >= 1,
            Err(m) => {
                ||| (input@.len() == 0 || !text::all_digits(input@) || text::dec_value(input@)
                    > u16::MAX) && m@ == "not a number"@
                ||| (text::all_digits(input@) && text::dec_value(input@) == 0 && m@
                    == "port out of range"@)
            },
        },
{
    match text::parse_u16(input) {
        Some(v) => if v >= 1 {
            Ok(v)
        } else {
            Err("port out of range")
        },
        None => Err("not a number"),
    }
}

/// Simulates reading a configuration file: an empty name is not found.
pub fn read_config_file(filename: &str) -> (r: Result<String, &'static str>)
    ensures
        match r {
            Ok(content) => filename@.len() > 0 && content@ == "config content"@,
            Err(m) => filename@.len() == 0 && m@ == "File not found"@,
        },
{
    if filename.unicode_len() == 0 {
        Err("File not found")
    } else {
        Ok(String::from_str("config content"))
    }
}

/// A basic email check: the address must contain an `@`.
pub fn validate_email<'a>(email: &'a str) -> (r: Result<&'a str, &'static str>)
    ensures
        match r {
            Ok(out) => out@ == email@ && text::seq_contains_char(email@, '@'),
            Err(m) => !text::seq_contains_char(email@, '@') && m@ == "missing @ sign"@,
        },
{
    if text::str_contains_char(email, '@') {
        Ok(email)
    } else {
        Err("missing @ sign")
    }
}

} // verus!

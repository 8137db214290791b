//! String formatting: composing user-facing messages.

use vstd::prelude::*;

verus! {

/// Formats a user's display name for the UI: `Welcome, {name}!`.
pub fn format_welcome_message(name: &str) -> (r: String)
    ensures
        r@ == "Welcome, "@ + name@ + "!"@,
{
    let mut out = String::from_str("Welcome, ");
    out.append(name);
    out.append("!");
    out
}

/// The application's version string.
pub fn get_app_version() -> (r: &'static str)
    ensures
        r@ == "1.0.0"@,
{
    "1.0.0"
}

} // verus!

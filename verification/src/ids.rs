//! Minting of fresh, time-sortable identifiers.

use vstd::prelude::*;

verus! {

/// Mints a fresh identifier for a participant or a submission row.
///
/// Relies on `ulid::Ulid::generate` and `ulid::Ulid::to_string`: the base32
/// encoding always yields exactly 26 characters.  The value itself depends on
/// the clock and on randomness, so nothing more is assumed of it; callers
/// must cope with any outcome, including a collision.
#[verifier::external_body]
pub(crate) fn mint_ulid() -> (r: String)
    ensures
        r@.len() == 26,
{
    ulid::Ulid::generate().to_string()
}

} // verus!

//! Ownership basics: moving, borrowing and mutating strings.

use vstd::prelude::*;
use vstd::string::StringSliceAdditionalSpecFns;

verus! {

/// Takes ownership of the string and extends it.
pub fn take_ownership(s: String) -> (r: String)
    ensures
        r@ == s@ + " - owned by Rust!"@,
{
    s.concat(" - owned by Rust!")
}

/// Borrows the string and reports its length in bytes.
pub fn borrow_string(s: &str) -> (r: usize)
    ensures
        r == s.spec_bytes().len() as usize,
{
    s.len()
}

/// Mutates the string in place through an exclusive borrow.
pub fn mutate_string(s: &mut String)
    ensures
        final(s)@ == old(s)@ + " - now with 100% more crab!"@,
{
    s.append(" - now with 100% more crab!");
}

} // verus!

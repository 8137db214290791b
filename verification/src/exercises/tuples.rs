//! Tuples and destructuring: grouping values without a named type.

use vstd::prelude::*;

verus! {

/// A sample user record as a (name, age) pair.
pub fn get_user_info() -> (r: (String, u32))
    ensures
        r.0@ == "Alice"@,
        r.1 == 25,
{
    (String::from_str("Alice"), 25)
}

/// Both area and perimeter of a rectangle, in one return value.
pub fn rectangle_measurements(width: u32, height: u32) -> (r: (u32, u32))
    requires
        width * height <= u32::MAX,
        2 * (width + height) <= u32::MAX,
    ensures
        r.0 == width * height,
        r.1 == 2 * (width + height),
{
    proof {
        assert(width * height >= 0) by (nonlinear_arith);
    }
    (width * height, 2 * (width + height))
}

/// The first name of a (first, last) pair.
pub fn get_first_name(full_name: (String, String)) -> (r: String)
    ensures
        r@ == full_name.0@,
{
    let (first, _last) = full_name;
    first
}

/// The pair with its elements swapped.
pub fn swap_values(pair: (i32, i32)) -> (r: (i32, i32))
    ensures
        r.0 == pair.1,
        r.1 == pair.0,
{
    let (a, b) = pair;
    (b, a)
}

} // verus!

//! `Option` handling: representing values that might be missing.

use vstd::prelude::*;

verus! {

/// Looks a user name up by numeric id.
pub fn find_user_by_id<'a>(users: &[(u32, &'a str)], id: u32) -> (r: Option<&'a str>)
    ensures
        match r {
            Some(name) => exists|i: int|
                0 <= i < users@.len() && users@[i].0 == id && users@[i].1@ == name@,
            None => forall|i: int| 0 <= i < users@.len() ==> (#[trigger] users@[i]).0 != id,
        },
{
    let n = users.len();
    let mut i: usize = 0;
    while i < n
        invariant
            0 <= i <= n,
            n == users@.len(),
            forall|k: int| 0 <= k < i ==> (#[trigger] users@[k]).0 != id,
        decreases n - i,
    {
        let (uid, name) = users[i];
        if uid == id {
            return Some(name);
        }
        i += 1;
    }
    None
}

/// The first item of a list, if the list has one.
pub fn get_first_item(items: &[String]) -> (r: Option<&String>)
    ensures
        match r {
            Some(s) => items@.len() > 0 && s@ == items@[0]@,
            None => items@.len() == 0,
        },
{
    if items.len() > 0 {
        Some(&items[0])
    } else {
        None
    }
}

/// A configuration value, or the given default when absent.
pub fn get_setting_or_default(setting: Option<u32>, default: u32) -> (r: u32)
    ensures
        match setting {
            Some(v) => r == v,
            None => r == default,
        },
{
    match setting {
        Some(v) => v,
        None => default,
    }
}

/// The length of an optional string, taking absence as zero.
pub fn optional_string_length(maybe_string: Option<&str>) -> (r: usize)
    ensures
        match maybe_string {
            Some(s) => r == s@.len(),
            None => r == 0,
        },
{
    match maybe_string {
        Some(s) => s.unicode_len(),
        None => 0,
    }
}

} // verus!

//! Vector basics: creating, growing and querying a list.

use vstd::prelude::*;
use crate::text;

verus! {

/// Collects the given items into an owned shopping list.
pub fn create_shopping_list(items: &[&str]) -> (r: Vec<String>)
    ensures
        r@.len() == items@.len(),
        forall|i: int| 0 <= i < r@.len() ==> (#[trigger] r@[i])@ == items@[i]@,
{
    let n = items.len();
    let mut out: Vec<String> = Vec::new();
    let mut i: usize = 0;
    while i < n
        invariant
            0 <= i <= n,
            n == items@.len(),
            out@.len() == i,
            forall|k: int| 0 <= k < i ==> (#[trigger] out@[k])@ == items@[k]@,
        decreases n - i,
    {
        out.push(items[i].to_owned());
        i += 1;
    }
    out
}

/// Appends one item to the list.
pub fn add_item(list: &mut Vec<String>, item: &str)
    ensures
        final(list)@.len() == old(list)@.len() + 1,
        forall|i: int| 0 <= i < old(list)@.len() ==> final(list)@[i] == old(list)@[i],
        final(list)@.last()@ == item@,
{
    list.push(item.to_owned());
}

/// The number of items in the list.
pub fn count_items(list: &Vec<String>) -> (r: usize)
    ensures
        r == list@.len(),
{
    list.len()
}

/// Whether the list holds the item, compared character for character.
pub fn contains_item(list: &Vec<String>, item: &str) -> (r: bool)
    ensures
        r == exists|i: int| 0 <= i < list@.len() && (#[trigger] list@[i])@ == item@,
{
    let n = list.len();
    let mut i: usize = 0;
    while i < n
        invariant
            0 <= i <= n,
            n == list@.len(),
            forall|k: int| 0 <= k < i ==> (#[trigger] list@[k])@ != item@,
        decreases n - i,
    {
        if text::str_eq(list[i].as_str(), item) {
            return true;
        }
        i += 1;
    }
    false
}

} // verus!

//! Counting words in free text.

use vstd::prelude::*;
use std::collections::HashMap;
use std::collections::hash_map::RandomState;
use vstd::std_specs::hash::{builds_valid_hashers, obeys_key_model};
use crate::maps::{self, map_has_count, occurrences};
use crate::text::tokens_of;

verus! {

/// Counts how often each white-space-separated word occurs in the text.
/// Whenever `String` keys obey the hash-table key model, the map binds
/// every word of the text to its number of occurrences.
pub fn word_count(text: &str) -> (r: HashMap<String, usize>)
    ensures
        (obeys_key_model::<String>() && builds_valid_hashers::<RandomState>()) ==> forall|t: int|
            0 <= t < tokens_of(text@).len() ==> map_has_count(
                r@,
                #[trigger] tokens_of(text@)[t],
                occurrences(tokens_of(text@), tokens_of(text@)[t]) as usize,
            ),
{
    let words = crate::text::split_whitespace_tokens(text);
    let ghost wv = words@.map_values(|s: String| s@);
    let pairs = maps::count_occurrences(&words);
    let ghost pv = pairs@;
    let m = maps::build_count_map(pairs);
    proof {
        if obeys_key_model::<String>() && builds_valid_hashers::<RandomState>() {
            assert forall|t: int| 0 <= t < tokens_of(text@).len() implies map_has_count(
                m@,
                #[trigger] tokens_of(text@)[t],
                occurrences(tokens_of(text@), tokens_of(text@)[t]) as usize,
            ) by {
                assert(wv == tokens_of(text@));
                assert((words@[t])@ == wv[t]);
                assert(maps::has_pair_for(pv, (words@[t])@));
                let a = choose|a: int| 0 <= a < pv.len() && (#[trigger] pv[a]).0@ == (words@[t])@;
                assert(map_has_count(m@, pv[a].0@, pv[a].1));
                assert(pv[a].1 == occurrences(wv, pv[a].0@));
            }
        }
    }
    m
}

} // verus!

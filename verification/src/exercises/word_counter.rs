//! A case-insensitive word counter with summary queries.

use vstd::prelude::*;
use std::collections::HashMap;
use std::collections::hash_map::RandomState;
use vstd::std_specs::hash::{builds_valid_hashers, obeys_key_model};
use crate::maps::{self, has_pair_for, map_has_count, occurrences};
use crate::text::{self, lower_seq, tokens_of};

verus! {

/// The text's words, lower-cased: the unit this counter tallies.
pub open spec fn lowered_words(text: Seq<char>) -> Seq<Seq<char>> {
    tokens_of(text).map_values(|w: Seq<char>| lower_seq(w))
}

/// Splits the text on white space and lower-cases each word.
fn lowered_tokens(text: &str) -> (r: Vec<String>)
    ensures
        r@.map_values(|s: String| s@) == lowered_words(text@),
{
    let words = text::split_whitespace_tokens(text);
    let n = words.len();
    let mut out: Vec<String> = Vec::new();
    let mut i: usize = 0;
    while i < n
        invariant
            0 <= i <= n,
            n == words@.len(),
            words@.map_values(|s: String| s@) == tokens_of(text@),
            out@.len() == i,
            forall|k: int|
                0 <= k < i ==> (#[trigger] out@[k])@ == lower_seq((words@[k])@),
        decreases n - i,
    {
        let lowered = text::to_lower(words[i].as_str());
        out.push(lowered);
        i += 1;
    }
    proof {
        assert(out@.map_values(|s: String| s@) =~= lowered_words(text@));
    }
    out
}

/// Counts how often each word occurs, case-insensitively.  Whenever
/// `String` keys obey the hash-table key model, the map binds every
/// lower-cased word of the text to its number of occurrences.
pub fn count_words(text: &str) -> (r: HashMap<String, usize>)
    ensures
        (obeys_key_model::<String>() && builds_valid_hashers::<RandomState>()) ==> forall|t: int|
            0 <= t < lowered_words(text@).len() ==> map_has_count(
                r@,
                #[trigger] lowered_words(text@)[t],
                occurrences(lowered_words(text@), lowered_words(text@)[t]) as usize,
            ),
{
    let words = lowered_tokens(text);
    let ghost wv = words@.map_values(|s: String| s@);
    let pairs = maps::count_occurrences(&words);
    let ghost pv = pairs@;
    let m = maps::build_count_map(pairs);
    proof {
        if obeys_key_model::<String>() && builds_valid_hashers::<RandomState>() {
            assert forall|t: int| 0 <= t < lowered_words(text@).len() implies map_has_count(
                m@,
                #[trigger] lowered_words(text@)[t],
                occurrences(lowered_words(text@), lowered_words(text@)[t]) as usize,
            ) by {
                assert(wv == lowered_words(text@));
                assert((words@[t])@ == wv[t]);
                assert(has_pair_for(pv, (words@[t])@));
                let a = choose|a: int| 0 <= a < pv.len() && (#[trigger] pv[a]).0@ == (words@[t])@;
                assert(map_has_count(m@, pv[a].0@, pv[a].1));
                assert(pv[a].1 == occurrences(wv, pv[a].0@));
            }
        }
    }
    m
}

/// The most common word of the text, with its count, or nothing for a text
/// without words.  The count is the word's, and no word occurs more often.
pub fn most_common_word(text: &str) -> (r: Option<(String, usize)>)
    ensures
        match r {
            Some(wc) => lowered_words(text@).len() > 0 && wc.1 == occurrences(
                lowered_words(text@),
                wc.0@,
            ) && wc.1 >= 1 && forall|t: int|
                0 <= t < lowered_words(text@).len() ==> occurrences(
                    lowered_words(text@),
                    #[trigger] lowered_words(text@)[t],
                ) <= wc.1,
            None => lowered_words(text@).len() == 0,
        },
{
    let ghost lw = lowered_words(text@);
    let words = lowered_tokens(text);
    let pairs = maps::count_occurrences(&words);
    let ghost pv = pairs@;
    if pairs.len() == 0 {
        proof {
            if lw.len() > 0 {
                assert(maps::has_pair_for(pv, (words@[0])@));
            }
        }
        return None;
    }
    let n = pairs.len();
    let mut best: usize = 0;
    let mut j: usize = 1;
    while j < n
        invariant
            0 <= best < j <= n,
            n == pairs@.len(),
            pv == pairs@,
            forall|a: int| 0 <= a < j ==> (#[trigger] pv[a]).1 <= pv[best as int].1,
        decreases n - j,
    {
        if pairs[j].1 > pairs[best].1 {
            best = j;
        }
        j += 1;
    }
    let word = pairs[best].0.clone();
    let count = pairs[best].1;
    proof {
        assert(word@ == pv[best as int].0@);
        assert(count == occurrences(words@.map_values(|s: String| s@), word@));
        assert(words@.map_values(|s: String| s@) == lw);
        assert(lw.len() > 0) by {
            if lw.len() == 0 {
                assert(forall|w: int|
                    0 <= w < words@.len() ==> maps::has_pair_for(pv, (#[trigger] words@[w])@));
                assert(words@.len() == lw.len());
                assert(pv.len() >= 1);
            }
        }
        assert forall|t: int| 0 <= t < lw.len() implies occurrences(lw, #[trigger] lw[t])
            <= count by {
            assert((words@[t])@ == lw[t]);
            assert(maps::has_pair_for(pv, (words@[t])@));
            let a = choose|a: int| 0 <= a < pv.len() && (#[trigger] pv[a]).0@ == (words@[t])@;
            assert(pv[a].1 == occurrences(lw, lw[t]));
            assert(pv[a].1 <= count);
        }
    }
    Some((word, count))
}

/// The distinct words that occur at least `min_count` times.
pub fn frequent_words(text: &str, min_count: usize) -> (r: Vec<String>)
    ensures
        forall|i: int, j: int|
            0 <= i < j < r@.len() ==> (#[trigger] r@[i])@ != (#[trigger] r@[j])@,
        forall|i: int|
            0 <= i < r@.len() ==> occurrences(lowered_words(text@), (#[trigger] r@[i])@)
                >= min_count,
        forall|t: int|
            0 <= t < lowered_words(text@).len() ==> (occurrences(
                lowered_words(text@),
                #[trigger] lowered_words(text@)[t],
            ) >= min_count ==> exists|i: int|
                0 <= i < r@.len() && (#[trigger] r@[i])@ == lowered_words(text@)[t]),
{
    let ghost lw = lowered_words(text@);
    let words = lowered_tokens(text);
    let pairs = maps::count_occurrences(&words);
    let ghost pv = pairs@;
    let n = pairs.len();
    let mut out: Vec<String> = Vec::new();
    let mut i: usize = 0;
    while i < n
        invariant
            0 <= i <= n,
            n == pairs@.len(),
            pv == pairs@,
            words@.map_values(|s: String| s@) == lw,
            forall|a: int, b: int|
                0 <= a < b < pv.len() ==> (#[trigger] pv[a]).0@ != (#[trigger] pv[b]).0@,
            forall|a: int|
                0 <= a < pv.len() ==> (#[trigger] pv[a]).1 == occurrences(lw, pv[a].0@),
            forall|a: int, b: int|
                0 <= a < b < out@.len() ==> (#[trigger] out@[a])@ != (#[trigger] out@[b])@,
            forall|a: int|
                0 <= a < out@.len() ==> occurrences(lw, (#[trigger] out@[a])@) >= min_count,
            forall|a: int|
                0 <= a < i ==> ((#[trigger] pv[a]).1 >= min_count ==> exists|b: int|
                    0 <= b < out@.len() && (#[trigger] out@[b])@ == pv[a].0@),
            forall|b: int|
                #![trigger out@[b]]
                0 <= b < out@.len() ==> exists|a: int|
                    0 <= a < i && (#[trigger] pv[a]).0@ == (out@[b])@,
        decreases n - i,
    {
        let ghost out_old = out@;
        if pairs[i].1 >= min_count {
            let word = pairs[i].0.clone();
            out.push(word);
            proof {
                assert((out@[out@.len() - 1])@ == pv[i as int].0@);
                assert forall|a: int, b: int|
                    0 <= a < b < out@.len() implies (#[trigger] out@[a])@ != (
                #[trigger] out@[b])@ by {
                    if b == out@.len() - 1 {
                        let a0 = choose|a0: int|
                            0 <= a0 < i && (#[trigger] pv[a0]).0@ == (out_old[a])@;
                        assert(pv[a0].0@ != pv[i as int].0@);
                    } else {
                        assert(out_old[a] == out@[a] && out_old[b] == out@[b]);
                    }
                }
            }
        }
        proof {
            assert forall|a: int|
                0 <= a < i + 1 implies ((#[trigger] pv[a]).1 >= min_count ==> exists|b: int|
                0 <= b < out@.len() && (#[trigger] out@[b])@ == pv[a].0@) by {
                if pv[a].1 >= min_count {
                    if a < i {
                        let b = choose|b: int|
                            0 <= b < out_old.len() && (#[trigger] out_old[b])@ == pv[a].0@;
                        assert((out@[b])@ == pv[a].0@);
                    } else {
                        assert((out@[out@.len() - 1])@ == pv[a].0@);
                    }
                }
            }
        }
        i += 1;
    }
    proof {
        assert forall|t: int|
            0 <= t < lw.len() implies (occurrences(lw, #[trigger] lw[t]) >= min_count
            ==> exists|b: int| 0 <= b < out@.len() && (#[trigger] out@[b])@ == lw[t]) by {
            if occurrences(lw, lw[t]) >= min_count {
                assert((words@[t])@ == lw[t]);
                assert(maps::has_pair_for(pv, (words@[t])@));
                let a = choose|a: int| 0 <= a < pv.len() && (#[trigger] pv[a]).0@ == (words@[t])@;
                assert(pv[a].1 == occurrences(lw, lw[t]));
                assert(pv[a].1 >= min_count);
                let b = choose|b: int| 0 <= b < out@.len() && (#[trigger] out@[b])@ == pv[a].0@;
                assert((out@[b])@ == lw[t]);
            }
        }
    }
    out
}

} // verus!

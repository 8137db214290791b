//! Spec predicates and verified builders for hash maps keyed by strings.
//!
//! A `String` key is opaque to the solver beyond its character sequence, so
//! these predicates quantify over keys with a given view.  Contracts over
//! them hold whenever `String` obeys the hash-table key model.

use vstd::prelude::*;
use std::collections::HashMap;
use std::collections::hash_map::RandomState;
use vstd::std_specs::hash::{builds_valid_hashers, obeys_key_model};
use crate::text;

verus! {

/// The map binds some key with these characters to a value with those.
pub open spec fn map_has_str(m: Map<String, String>, kv: Seq<char>, vv: Seq<char>) -> bool {
    exists|k: String| k@ == kv && #[trigger] m.contains_key(k) && m[k]@ == vv
}

/// The map binds some key with these characters to this count.
pub open spec fn map_has_count(m: Map<String, usize>, kv: Seq<char>, n: usize) -> bool {
    exists|k: String| k@ == kv && #[trigger] m.contains_key(k) && m[k] == n
}

/// Some tally pair names this word.
pub open spec fn has_pair_for(ps: Seq<(String, usize)>, w: Seq<char>) -> bool {
    exists|i: int| 0 <= i < ps.len() && (#[trigger] ps[i]).0@ == w
}

/// How often the word occurs in the list.
pub open spec fn occurrences(ws: Seq<Seq<char>>, w: Seq<char>) -> nat
    decreases ws.len(),
{
    if ws.len() == 0 {
        0
    } else {
        occurrences(ws.drop_last(), w) + if ws.last() == w {
            1nat
        } else {
            0nat
        }
    }
}

/// Tallies the words: one pair per distinct word, each carrying how often
/// the word occurs in the whole list.
pub fn count_occurrences(words: &Vec<String>) -> (r: Vec<(String, usize)>)
    ensures
        forall|i: int, j: int|
            0 <= i < j < r@.len() ==> (#[trigger] r@[i]).0@ != (#[trigger] r@[j]).0@,
        forall|i: int|
            0 <= i < r@.len() ==> (#[trigger] r@[i]).1 == occurrences(
                words@.map_values(|s: String| s@),
                r@[i].0@,
            ) && (r@[i]).1 >= 1,
        forall|w: int| 0 <= w < words@.len() ==> has_pair_for(r@, (#[trigger] words@[w])@),
{
    let ghost wv = words@.map_values(|s: String| s@);
    let n = words.len();
    let mut pairs: Vec<(String, usize)> = Vec::new();
    let mut i: usize = 0;
    proof {
        assert(wv.subrange(0, 0) =~= Seq::<Seq<char>>::empty());
    }
    while i < n
        invariant
            0 <= i <= n,
            n == words@.len(),
            wv == words@.map_values(|s: String| s@),
            wv.len() == n,
            forall|a: int, b: int|
                0 <= a < b < pairs@.len() ==> (#[trigger] pairs@[a]).0@ != (
                #[trigger] pairs@[b]).0@,
            forall|a: int|
                0 <= a < pairs@.len() ==> (#[trigger] pairs@[a]).1 == occurrences(
                    wv.subrange(0, i as int),
                    pairs@[a].0@,
                ) && 1 <= (pairs@[a]).1 <= i,
            forall|w: int| 0 <= w < i ==> has_pair_for(pairs@, #[trigger] wv[w]),
        decreases n - i,
    {
        let ghost prefix = wv.subrange(0, i as int);
        let ghost next = wv.subrange(0, i + 1);
        proof {
            assert(next.drop_last() =~= prefix);
            assert(next.last() == wv[i as int]);
        }
        let word = &words[i];
        let ghost pairs_old = pairs@;
        if let Some(j) = find_key(&pairs, word.as_str()) {
            let count = pairs[j].1;
            let key = pairs[j].0.clone();
            pairs.set(j, (key, count + 1));
            proof {
                assert(pairs@[j as int].0@ == pairs_old[j as int].0@);
                assert(pairs@[j as int].0@ == wv[i as int]);
                assert forall|a: int|
                    0 <= a < pairs@.len() implies (#[trigger] pairs@[a]).1 == occurrences(
                    next,
                    pairs@[a].0@,
                ) && 1 <= (pairs@[a]).1 <= i + 1 by {
                    if a == j as int {
                        assert(occurrences(next, pairs@[a].0@) == occurrences(
                            prefix,
                            pairs@[a].0@,
                        ) + 1);
                    } else {
                        assert(pairs@[a] == pairs_old[a]);
                        assert(pairs@[a].0@ != wv[i as int]);
                        assert(occurrences(next, pairs@[a].0@) == occurrences(
                            prefix,
                            pairs@[a].0@,
                        ));
                    }
                }
                assert forall|w: int| 0 <= w < i + 1 implies has_pair_for(
                    pairs@,
                    #[trigger] wv[w],
                ) by {
                    if w == i as int {
                        assert(pairs@[j as int].0@ == wv[w]);
                    } else {
                        assert(has_pair_for(pairs_old, wv[w]));
                        let a = choose|a: int|
                            0 <= a < pairs_old.len() && (#[trigger] pairs_old[a]).0@ == wv[w];
                        assert(pairs@[a].0@ == pairs_old[a].0@);
                        assert(pairs@[a].0@ == wv[w]);
                    }
                }
            }
        } else {
            proof {
                assert forall|x: int| 0 <= x < prefix.len() implies #[trigger] prefix[x]
                    != word@ by {
                    assert(prefix[x] == wv[x]);
                    assert(has_pair_for(pairs_old, wv[x]));
                    let a = choose|a: int|
                        0 <= a < pairs_old.len() && (#[trigger] pairs_old[a]).0@ == wv[x];
                    assert(pairs_old[a].0@ != word@);
                }
                lemma_occurrences_zero(prefix, word@);
            }
            let key = word.clone();
            pairs.push((key, 1));
            proof {
                let a_new = pairs@.len() - 1;
                assert(pairs@[a_new].0@ == wv[i as int]);
                assert forall|a: int|
                    0 <= a < pairs@.len() implies (#[trigger] pairs@[a]).1 == occurrences(
                    next,
                    pairs@[a].0@,
                ) && 1 <= (pairs@[a]).1 <= i + 1 by {
                    if a == a_new {
                        assert(occurrences(prefix, pairs@[a].0@) == 0);
                        assert(occurrences(next, pairs@[a].0@) == occurrences(
                            prefix,
                            pairs@[a].0@,
                        ) + 1);
                    } else {
                        assert(pairs@[a] == pairs_old[a]);
                        assert(pairs@[a].0@ != wv[i as int]);
                        assert(occurrences(next, pairs@[a].0@) == occurrences(
                            prefix,
                            pairs@[a].0@,
                        ));
                    }
                }
                assert forall|w: int| 0 <= w < i + 1 implies has_pair_for(
                    pairs@,
                    #[trigger] wv[w],
                ) by {
                    if w == i as int {
                        assert(pairs@[a_new].0@ == wv[w]);
                    } else {
                        assert(has_pair_for(pairs_old, wv[w]));
                        let a = choose|a: int|
                            0 <= a < pairs_old.len() && (#[trigger] pairs_old[a]).0@ == wv[w];
                        assert(pairs@[a].0@ == wv[w]);
                    }
                }
            }
        }
        i += 1;
    }
    proof {
        assert(wv.subrange(0, n as int) =~= wv);
        assert forall|w: int| 0 <= w < words@.len() implies has_pair_for(
            pairs@,
            (#[trigger] words@[w])@,
        ) by {
            assert(wv[w] == (words@[w])@);
            assert(has_pair_for(pairs@, wv[w]));
        }
    }
    pairs
}

/// Finds the pair holding this word, if one exists.
fn find_key(pairs: &Vec<(String, usize)>, w: &str) -> (r: Option<usize>)
    ensures
        match r {
            Some(j) => 0 <= j < pairs@.len() && (pairs@[j as int]).0@ == w@,
            None => forall|a: int| 0 <= a < pairs@.len() ==> (#[trigger] pairs@[a]).0@ != w@,
        },
{
    let m = pairs.len();
    let mut j: usize = 0;
    while j < m
        invariant
            0 <= j <= m,
            m == pairs@.len(),
            forall|a: int| 0 <= a < j ==> (#[trigger] pairs@[a]).0@ != w@,
        decreases m - j,
    {
        if text::str_eq(pairs[j].0.as_str(), w) {
            return Some(j);
        }
        j += 1;
    }
    None
}

/// A word that appears nowhere in the list occurs zero times.
proof fn lemma_occurrences_zero(ws: Seq<Seq<char>>, w: Seq<char>)
    requires
        forall|x: int| 0 <= x < ws.len() ==> #[trigger] ws[x] != w,
    ensures
        occurrences(ws, w) == 0,
    decreases ws.len(),
{
    if ws.len() > 0 {
        let head = ws.drop_last();
        assert(forall|x: int| 0 <= x < head.len() ==> #[trigger] head[x] == ws[x]);
        lemma_occurrences_zero(head, w);
    }
}

/// Collects distinct-keyed count pairs into a hash map.  Whenever `String`
/// keys obey the hash-table key model, the map holds exactly the pairs.
pub fn build_count_map(pairs: Vec<(String, usize)>) -> (m: HashMap<String, usize>)
    requires
        forall|i: int, j: int|
            0 <= i < j < pairs@.len() ==> (#[trigger] pairs@[i]).0@ != (#[trigger] pairs@[j]).0@,
    ensures
        (obeys_key_model::<String>() && builds_valid_hashers::<RandomState>()) ==> (m@.len()
            == pairs@.len() && forall|i: int|
            0 <= i < pairs@.len() ==> map_has_count(m@, (#[trigger] pairs@[i]).0@, pairs@[i].1)),
{
    broadcast use vstd::std_specs::hash::group_hash_axioms;

    let ghost pv = pairs@;
    let n = pairs.len();
    let mut m: HashMap<String, usize> = HashMap::new();
    let mut i: usize = 0;
    while i < n
        invariant
            0 <= i <= n,
            n == pairs@.len(),
            pv == pairs@,
            forall|a: int, b: int|
                0 <= a < b < pv.len() ==> (#[trigger] pv[a]).0@ != (#[trigger] pv[b]).0@,
            (obeys_key_model::<String>() && builds_valid_hashers::<RandomState>()) ==> (m@.len()
                == i && (forall|k: int|
                0 <= k < i ==> map_has_count(m@, (#[trigger] pv[k]).0@, pv[k].1)) && (forall|
                ks: String,
            |
                #[trigger] m@.contains_key(ks) ==> exists|k: int|
                    0 <= k < i && (#[trigger] pv[k]).0@ == ks@)),
        decreases n - i,
    {
        let key = pairs[i].0.clone();
        let value = pairs[i].1;
        let ghost keyv = key@;
        let ghost m_old = m@;
        m.insert(key, value);
        proof {
            if obeys_key_model::<String>() && builds_valid_hashers::<RandomState>() {
                assert(keyv == pv[i as int].0@);
                assert forall|ks: String| #[trigger]
                    m@.contains_key(ks) implies exists|k: int|
                    0 <= k < i + 1 && (#[trigger] pv[k]).0@ == ks@ by {
                    if ks@ != keyv {
                        assert(m_old.contains_key(ks));
                        let k = choose|k: int| 0 <= k < i && (#[trigger] pv[k]).0@ == ks@;
                        assert(0 <= k < i + 1 && pv[k].0@ == ks@);
                    } else {
                        assert(pv[i as int].0@ == ks@);
                    }
                }
                assert forall|k: int| 0 <= k < i + 1 implies map_has_count(
                    m@,
                    (#[trigger] pv[k]).0@,
                    pv[k].1,
                ) by {
                    if k < i {
                        let ks = choose|ks: String|
                            ks@ == pv[k].0@ && #[trigger] m_old.contains_key(ks) && m_old[ks]
                                == pv[k].1;
                        assert(ks@ != keyv);
                        assert(m@.contains_key(ks) && m@[ks] == pv[k].1);
                    } else {
                        assert(m@.contains_key(key) && m@[key] == pv[k].1);
                    }
                }
                assert(!m_old.contains_key(key)) by {
                    if m_old.contains_key(key) {
                        let k = choose|k: int| 0 <= k < i && (#[trigger] pv[k]).0@ == key@;
                        assert(pv[k].0@ == pv[i as int].0@);
                    }
                }
                assert(m@.len() == i + 1);
            }
        }
        i += 1;
    }
    m
}

} // verus!

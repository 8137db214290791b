//! HashMap basics: configuration lookups and word counting.

use vstd::prelude::*;
use std::collections::HashMap;
use std::collections::hash_map::RandomState;
use vstd::std_specs::hash::{builds_valid_hashers, obeys_key_model};
use crate::maps::{self, map_has_count, map_has_str, occurrences};

verus! {

/// The default configuration: `host -> localhost` and `port -> 8080`.
/// Whenever `String` keys obey the hash-table key model, the map holds
/// exactly those two entries.
pub fn create_default_config() -> (r: HashMap<String, String>)
    ensures
        (obeys_key_model::<String>() && builds_valid_hashers::<RandomState>()) ==> (r@.len() == 2
            && map_has_str(r@, "host"@, "localhost"@) && map_has_str(r@, "port"@, "8080"@)),
{
    broadcast use vstd::std_specs::hash::group_hash_axioms;

    let mut m: HashMap<String, String> = HashMap::new();
    let host_key = String::from_str("host");
    let host_val = String::from_str("localhost");
    let port_key = String::from_str("port");
    let port_val = String::from_str("8080");
    let ghost hk = host_key;
    let ghost pk = port_key;
    m.insert(host_key, host_val);
    let ghost m1 = m@;
    m.insert(port_key, port_val);
    proof {
        if obeys_key_model::<String>() && builds_valid_hashers::<RandomState>() {
            assert(hk@ != pk@) by {
                reveal_strlit("host");
                reveal_strlit("port");
                assert("host"@.len() == 4 && "port"@.len() == 4);
                assert("host"@[0] == 'h' && "port"@[0] == 'p');
            }
            assert(hk != pk);
            assert(m@.contains_key(hk) && m@[hk]@ == "localhost"@);
            assert(m@.contains_key(pk) && m@[pk]@ == "8080"@);
            assert(map_has_str(m@, "host"@, "localhost"@));
            assert(map_has_str(m@, "port"@, "8080"@));
            assert(m@.len() == 2);
        }
    }
    m
}

/// Looks a configuration value up; a missing key falls back to `default`.
/// The result is either the value bound to such a key or the fallback.
pub fn get_config_value(config: &HashMap<String, String>, key: &str) -> (r: String)
    ensures
        (obeys_key_model::<String>() && builds_valid_hashers::<RandomState>()) ==> (map_has_str(
            config@,
            key@,
            r@,
        ) || r@ == "default"@),
{
    broadcast use vstd::std_specs::hash::group_hash_axioms;

    let owned: String = key.to_owned();
    match config.get(&owned) {
        Some(v) => {
            proof {
                if obeys_key_model::<String>() && builds_valid_hashers::<RandomState>() {
                    assert(config@.contains_key(owned));
                }
            }
            v.clone()
        },
        None => String::from_str("default"),
    }
}

/// Binds the key to the value, inserting or overwriting.
pub fn set_config_value(config: &mut HashMap<String, String>, key: &str, value: &str)
    ensures
        (obeys_key_model::<String>() && builds_valid_hashers::<RandomState>()) ==> exists|
            k: String,
            v: String,
        |
            k@ == key@ && v@ == value@ && final(config)@ == old(config)@.insert(k, v),
{
    broadcast use vstd::std_specs::hash::group_hash_axioms;

    let owned_key: String = key.to_owned();
    let owned_value: String = value.to_owned();
    let ghost kk = owned_key;
    let ghost vv = owned_value;
    config.insert(owned_key, owned_value);
    proof {
        if obeys_key_model::<String>() && builds_valid_hashers::<RandomState>() {
            assert(kk@ == key@ && vv@ == value@ && config@ == old(config)@.insert(kk, vv));
        }
    }
}

/// Counts how often each word appears.  Whenever `String` keys obey the
/// hash-table key model, the map binds every given word to its number of
/// occurrences among the words.
pub fn count_words(words: &[&str]) -> (r: HashMap<String, usize>)
    ensures
        (obeys_key_model::<String>() && builds_valid_hashers::<RandomState>()) ==> forall|w: int|
            0 <= w < words@.len() ==> map_has_count(
                r@,
                (#[trigger] words@[w])@,
                occurrences(words@.map_values(|s: &str| s@), (words@[w])@) as usize,
            ),
{
    let n = words.len();
    let mut owned: Vec<String> = Vec::new();
    let mut i: usize = 0;
    while i < n
        invariant
            0 <= i <= n,
            n == words@.len(),
            owned@.len() == i,
            forall|k: int| 0 <= k < i ==> (#[trigger] owned@[k])@ == (words@[k])@,
        decreases n - i,
    {
        owned.push(words[i].to_owned());
        i += 1;
    }
    proof {
        assert(owned@.map_values(|s: String| s@) =~= words@.map_values(|s: &str| s@));
    }
    let pairs = maps::count_occurrences(&owned);
    let ghost pv = pairs@;
    let m = maps::build_count_map(pairs);
    proof {
        if obeys_key_model::<String>() && builds_valid_hashers::<RandomState>() {
            assert forall|w: int| 0 <= w < words@.len() implies map_has_count(
                m@,
                (#[trigger] words@[w])@,
                occurrences(words@.map_values(|s: &str| s@), (words@[w])@) as usize,
            ) by {
                assert(maps::has_pair_for(pv, (owned@[w])@));
                let a = choose|a: int| 0 <= a < pv.len() && (#[trigger] pv[a]).0@ == (owned@[w])@;
                assert(map_has_count(m@, pv[a].0@, pv[a].1));
                assert(pv[a].1 == occurrences(owned@.map_values(|s: String| s@), pv[a].0@));
            }
        }
    }
    m
}

} // verus!

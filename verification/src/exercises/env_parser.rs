//! Reading `.env`-style configuration: `KEY=value` lines, `#` comments.

use vstd::prelude::*;
use std::collections::HashMap;
use std::collections::hash_map::RandomState;
use vstd::std_specs::hash::{builds_valid_hashers, obeys_key_model};
use crate::text::{self, first_index_of, split_seq, trim_seq};

verus! {

/// Why a line or a file was rejected.
#[derive(Debug, Clone, Copy, PartialEq, Eq, Structural)]
pub enum ParseError {
    /// The line holds no `=`.
    InvalidFormat,
    /// The key before the `=` is empty.
    EmptyKey,
    /// The value after the `=` is empty.
    EmptyValue,
}

/// What one `KEY=value` line parses to: the trimmed key and value around
/// the first `=`, or the error that rules the line out.
pub open spec fn env_line_parts(line: Seq<char>) -> Result<(Seq<char>, Seq<char>), ParseError> {
    match first_index_of(line, '=') {
        None => Err(ParseError::InvalidFormat),
        Some(i) => {
            let key = trim_seq(line.subrange(0, i));
            let value = trim_seq(line.skip(i + 1));
            if key.len() == 0 {
                Err(ParseError::EmptyKey)
            } else if value.len() == 0 {
                Err(ParseError::EmptyValue)
            } else {
                Ok((key, value))
            }
        },
    }
}

/// Parses one line of an `.env` file, as `env_line_parts` describes.
pub fn parse_env_line(line: &str) -> (r: Result<(String, String), ParseError>)
    ensures
        match r {
            Ok(kv) => env_line_parts(line@) matches Ok(parts) && kv.0@ == parts.0 && kv.1@
                == parts.1,
            Err(e) => env_line_parts(line@) matches Err(e2) && e == e2,
        },
{
    let n = line.unicode_len();
    let i = match text::find_char(line, '=') {
        Some(i) => {
            proof {
                text::lemma_first_index_is(line@, '=', i as int);
            }
            i
        },
        None => {
            proof {
                text::lemma_first_index_none(line@, '=');
            }
            return Err(ParseError::InvalidFormat);
        },
    };
    let raw_key = text::substring(line, 0, i);
    let raw_value = text::substring(line, i + 1, n);
    proof {
        assert(raw_key@ =~= line@.subrange(0, i as int));
        assert(raw_value@ =~= line@.skip(i + 1));
    }
    let key = text::trim(raw_key.as_str());
    let value = text::trim(raw_value.as_str());
    if key.as_str().unicode_len() == 0 {
        Err(ParseError::EmptyKey)
    } else if value.as_str().unicode_len() == 0 {
        Err(ParseError::EmptyValue)
    } else {
        Ok((key, value))
    }
}

/// A line the file reader skips: blank, or a `#` comment.
pub open spec fn skipped_line(line: Seq<char>) -> bool {
    trim_seq(line).len() == 0 || trim_seq(line)[0] == '#'
}

/// The key/value pairs of a file's lines, in order; the first bad line's
/// error wins.
pub open spec fn env_pairs(lines: Seq<Seq<char>>) -> Result<
    Seq<(Seq<char>, Seq<char>)>,
    ParseError,
>
    decreases lines.len(),
{
    if lines.len() == 0 {
        Ok(Seq::empty())
    } else {
        match env_pairs(lines.drop_last()) {
            Err(e) => Err(e),
            Ok(ps) => if skipped_line(lines.last()) {
                Ok(ps)
            } else {
                match env_line_parts(lines.last()) {
                    Err(e) => Err(e),
                    Ok(kv) => Ok(ps.push(kv)),
                }
            },
        }
    }
}

/// Parses a whole `.env` text into key/value pairs, in file order.  Blank
/// lines and `#` comments are skipped; the first bad line's error is
/// returned.
pub fn parse_env_entries(content: &str) -> (r: Result<Vec<(String, String)>, ParseError>)
    ensures
        match r {
            Ok(ps) => env_pairs(split_seq(content@, '\n')) matches Ok(specs) && ps@.len()
                == specs.len() && forall|i: int|
                0 <= i < ps@.len() ==> (#[trigger] ps@[i]).0@ == specs[i].0 && ps@[i].1@
                    == specs[i].1,
            Err(e) => env_pairs(split_seq(content@, '\n')) matches Err(e2) && e == e2,
        },
{
    let lines = text::split_char(content, '\n');
    let ghost line_views = lines@.map_values(|s: String| s@);
    let n = lines.len();
    let mut out: Vec<(String, String)> = Vec::new();
    let mut i: usize = 0;
    proof {
        assert(line_views.subrange(0, 0) =~= Seq::<Seq<char>>::empty());
    }
    while i < n
        invariant
            0 <= i <= n,
            n == lines@.len(),
            line_views == lines@.map_values(|s: String| s@),
            line_views == split_seq(content@, '\n'),
            line_views.len() == n,
            ({
                let sofar = env_pairs(line_views.subrange(0, i as int));
                sofar matches Ok(specs) && out@.len() == specs.len() && forall|k: int|
                    0 <= k < out@.len() ==> (#[trigger] out@[k]).0@ == specs[k].0 && out@[k].1@
                        == specs[k].1
            }),
        decreases n - i,
    {
        let ghost sofar = line_views.subrange(0, i as int);
        let ghost next = line_views.subrange(0, i + 1);
        proof {
            assert(next.drop_last() =~= sofar);
            assert(next.last() == line_views[i as int]);
        }
        let trimmed = text::trim(lines[i].as_str());
        let tn = trimmed.as_str().unicode_len();
        let skip_it = tn == 0 || trimmed.as_str().get_char(0) == '#';
        if !skip_it {
            match parse_env_line(lines[i].as_str()) {
                Ok(kv) => {
                    out.push(kv);
                },
                Err(e) => {
                    proof {
                        assert(env_pairs(next) matches Err(e2) && e == e2);
                        lemma_env_pairs_err(line_views, i + 1);
                    }
                    return Err(e);
                },
            }
        }
        i += 1;
    }
    proof {
        assert(line_views.subrange(0, n as int) =~= line_views);
    }
    Ok(out)
}

/// A file whose prefix already failed fails with the same error.
proof fn lemma_env_pairs_err(lines: Seq<Seq<char>>, i: int)
    requires
        0 <= i <= lines.len(),
        env_pairs(lines.subrange(0, i)) is Err,
    ensures
        env_pairs(lines) == env_pairs(lines.subrange(0, i)),
    decreases lines.len() - i,
{
    if i == lines.len() {
        assert(lines.subrange(0, i) =~= lines);
    } else {
        let next = lines.subrange(0, i + 1);
        assert(next.drop_last() =~= lines.subrange(0, i));
        assert(env_pairs(next) == env_pairs(lines.subrange(0, i)));
        lemma_env_pairs_err(lines, i + 1);
    }
}

/// No two pairs share a key.
pub open spec fn distinct_keys(ps: Seq<(Seq<char>, Seq<char>)>) -> bool {
    forall|i: int, j: int| 0 <= i < j < ps.len() ==> ps[i].0 != ps[j].0
}

/// The map binds some key with these characters to a value with those.
pub open spec fn m_has(m: Map<String, String>, kv: Seq<char>, vv: Seq<char>) -> bool {
    exists|k: String| k@ == kv && #[trigger] m.contains_key(k) && m[k]@ == vv
}

/// Pairwise distinct key views among the pairs.
pub open spec fn distinct_pair_keys(ps: Seq<(String, String)>) -> bool {
    forall|i: int, j: int| 0 <= i < j < ps.len() ==> (#[trigger] ps[i]).0@ != (#[trigger] ps[j]).0@
}

/// Collects key/value pairs into a hash map.  Whenever `String` keys obey
/// the hash-table key model and the keys are pairwise distinct, the map
/// holds exactly the pairs.
fn build_env_map(pairs: Vec<(String, String)>) -> (m: HashMap<String, String>)
    ensures
        (obeys_key_model::<String>() && builds_valid_hashers::<RandomState>()
            && distinct_pair_keys(pairs@)) ==> (m@.len() == pairs@.len() && forall|i: int|
            0 <= i < pairs@.len() ==> m_has(m@, (#[trigger] pairs@[i]).0@, pairs@[i].1@)),
{
    broadcast use vstd::std_specs::hash::group_hash_axioms;

    let ghost pv = pairs@;
    let n = pairs.len();
    let mut m: HashMap<String, String> = HashMap::new();
    let mut i: usize = 0;
    while i < n
        invariant
            0 <= i <= n,
            n == pairs@.len(),
            pv == pairs@,
            (obeys_key_model::<String>() && builds_valid_hashers::<RandomState>()
                && distinct_pair_keys(pv)) ==> (m@.len() == i && (forall|k: int|
                0 <= k < i ==> m_has(m@, (#[trigger] pv[k]).0@, pv[k].1@)) && (forall|ks: String|
                #[trigger] m@.contains_key(ks) ==> exists|k: int|
                    0 <= k < i && (#[trigger] pv[k]).0@ == ks@)),
        decreases n - i,
    {
        let pair = pairs[i].0.clone();
        let value = pairs[i].1.clone();
        let ghost keyv = pair@;
        let ghost m_old = m@;
        m.insert(pair, value);
        proof {
            if obeys_key_model::<String>() && builds_valid_hashers::<RandomState>()
                && distinct_pair_keys(pv) {
                assert(keyv == pv[i as int].0@);
                assert forall|ks: String| #[trigger]
                    m@.contains_key(ks) implies exists|k: int|
                    0 <= k < i + 1 && (#[trigger] pv[k]).0@ == ks@ by {
                    if ks@ != keyv {
                        assert(m_old.contains_key(ks));
                        let k = choose|k: int| 0 <= k < i && (#[trigger] pv[k]).0@ == ks@;
                        assert(0 <= k < i + 1 && pv[k].0@ == ks@);
                    } else {
                        assert(pv[i as int].0@ == ks@);
                    }
                }
                assert forall|k: int| 0 <= k < i + 1 implies m_has(
                    m@,
                    (#[trigger] pv[k]).0@,
                    pv[k].1@,
                ) by {
                    if k < i {
                        let ks = choose|ks: String|
                            ks@ == pv[k].0@ && #[trigger] m_old.contains_key(ks) && m_old[ks]@
                                == pv[k].1@;
                        assert(ks@ != keyv);
                        assert(m@.contains_key(ks) && m@[ks]@ == pv[k].1@);
                    } else {
                        assert(m@.contains_key(pair) && m@[pair]@ == pv[k].1@);
                    }
                }
                assert(!m_old.contains_key(pair)) by {
                    if m_old.contains_key(pair) {
                        let k = choose|k: int| 0 <= k < i && (#[trigger] pv[k]).0@ == pair@;
                        assert(pv[k].0@ == pv[i as int].0@);
                    }
                }
                assert(m@.len() == i + 1);
            }
        }
        i += 1;
    }
    m
}

/// Parses a whole `.env` text into a map.  The error cases are exact; for
/// the map itself, whenever `String` keys obey the hash-table key model and
/// the file's keys are pairwise distinct, the map holds exactly the parsed
/// pairs.
pub fn parse_env_file(content: &str) -> (r: Result<HashMap<String, String>, ParseError>)
    ensures
        match r {
            Ok(m) => env_pairs(split_seq(content@, '\n')) matches Ok(specs) && ((obeys_key_model::<
                String,
            >() && builds_valid_hashers::<RandomState>() && distinct_keys(specs)) ==> (m@.len()
                == specs.len() && forall|i: int|
                #![trigger specs[i]]
                0 <= i < specs.len() ==> m_has(m@, specs[i].0, specs[i].1))),
            Err(e) => env_pairs(split_seq(content@, '\n')) matches Err(e2) && e == e2,
        },
{
    let pairs = match parse_env_entries(content) {
        Ok(ps) => ps,
        Err(e) => {
            return Err(e);
        },
    };
    let ghost specs = match env_pairs(split_seq(content@, '\n')) {
        Ok(specs) => specs,
        Err(e) => Seq::empty(),
    };
    proof {
        if distinct_keys(specs) {
            assert forall|i: int, j: int|
                0 <= i < j < pairs@.len() implies (#[trigger] pairs@[i]).0@ != (
            #[trigger] pairs@[j]).0@ by {
                assert(specs[i].0 != specs[j].0);
            }
        }
    }
    let m = build_env_map(pairs);
    proof {
        if obeys_key_model::<String>() && builds_valid_hashers::<RandomState>() && distinct_keys(
            specs,
        ) {
            assert forall|i: int| #![trigger specs[i]]
                0 <= i < specs.len() implies m_has(m@, specs[i].0, specs[i].1) by {
                assert(m_has(m@, pairs@[i].0@, pairs@[i].1@));
            }
        }
    }
    Ok(m)
}

/// Reads one variable and converts it to the requested type.
///
/// Relies on `str::parse`: the conversion itself is whatever the type's
/// `FromStr` implementation decides, so nothing is promised of it.
#[verifier::external_body]
fn parse_value<T: std::str::FromStr>(s: &str) -> Option<T> {
    s.parse().ok()
}

/// Looks a variable up and parses it into the requested type; absence or a
/// failed conversion both yield nothing.
pub fn get_env_var<T: std::str::FromStr>(env: &HashMap<String, String>, key: &str) -> Option<T> {
    let owned: String = key.to_owned();
    match env.get(&owned) {
        Some(v) => parse_value(v.as_str()),
        None => None,
    }
}

/// Checks that every required variable is present; returns the first
/// missing key.
pub fn validate_required_vars(env: &HashMap<String, String>, required: &[&str]) -> (r: Result<
    (),
    String,
>)
    ensures
        (obeys_key_model::<String>() && builds_valid_hashers::<RandomState>()) ==> match r {
            Ok(()) => forall|i: int|
                0 <= i < required@.len() ==> has_key_view(env@, (#[trigger] required@[i])@),
            Err(k) => exists|i: int| 0 <= i < required@.len() && (#[trigger] required@[i])@ == k@,
        },
{
    broadcast use vstd::std_specs::hash::group_hash_axioms;

    let n = required.len();
    let mut i: usize = 0;
    while i < n
        invariant
            0 <= i <= n,
            n == required@.len(),
            (obeys_key_model::<String>() && builds_valid_hashers::<RandomState>()) ==> forall|
                k: int,
            |
                0 <= k < i ==> has_key_view(env@, (#[trigger] required@[k])@),
        decreases n - i,
    {
        let owned: String = required[i].to_owned();
        let present = env.contains_key(&owned);
        proof {
            if obeys_key_model::<String>() && builds_valid_hashers::<RandomState>() {
                assert(present == vstd::std_specs::hash::contains_borrowed_key::<
                    String,
                    String,
                    String,
                >(env@, &owned));
                assert(present == env@.contains_key(owned));
            }
        }
        if !present {
            return Err(owned);
        }
        proof {
            if obeys_key_model::<String>() && builds_valid_hashers::<RandomState>() {
                assert(m_contains(env@, owned));
                assert(has_key_view(env@, (required@[i as int])@));
            }
        }
        i += 1;
    }
    Ok(())
}

/// The map holds this exact key.
pub open spec fn m_contains(m: Map<String, String>, k: String) -> bool {
    m.contains_key(k)
}

/// The map holds some key with these characters.
pub open spec fn has_key_view(m: Map<String, String>, kv: Seq<char>) -> bool {
    exists|k: String| k@ == kv && #[trigger] m.contains_key(k)
}

} // verus!

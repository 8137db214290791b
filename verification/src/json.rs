//! A small JSON codec for the profile and API payloads: strings with
//! escapes, decimal numbers, booleans and arrays of strings.
//!
//! The emitter is specified exactly; each reader returns, besides the
//! value, how far it read, and promises that the consumed slice is exactly
//! that value's rendering.  Raw control characters and redundant leading
//! zeroes are refused, which keeps renderings canonical.

use vstd::prelude::*;
use crate::text;

verus! {

/// How one character appears inside a JSON string literal.
pub open spec fn escape_char(c: char) -> Seq<char> {
    if c == '"' {
        seq!['\\', '"']
    } else if c == '\\' {
        seq!['\\', '\\']
    } else if c == '\n' {
        seq!['\\', 'n']
    } else if c == '\r' {
        seq!['\\', 'r']
    } else if c == '\t' {
        seq!['\\', 't']
    } else {
        seq![c]
    }
}

/// The body of a JSON string literal.
pub open spec fn escape_seq(s: Seq<char>) -> Seq<char>
    decreases s.len(),
{
    if s.len() == 0 {
        Seq::empty()
    } else {
        escape_seq(s.drop_last()) + escape_char(s.last())
    }
}

/// A JSON string literal: the escaped body in double quotes.
pub open spec fn json_string(s: Seq<char>) -> Seq<char> {
    seq!['"'] + escape_seq(s) + seq!['"']
}

/// A JSON boolean.
pub open spec fn json_bool(b: bool) -> Seq<char> {
    if b {
        "true"@
    } else {
        "false"@
    }
}

/// The decimal rendering of a number, without redundant leading zeroes.
pub open spec fn dec_string(n: nat) -> Seq<char>
    decreases n,
{
    if n < 10 {
        seq![text::digit_char_of(n)]
    } else {
        dec_string(n / 10) + seq![text::digit_char_of(n % 10)]
    }
}

/// A JSON array of string literals.
pub open spec fn json_string_array(items: Seq<Seq<char>>) -> Seq<char> {
    seq!['['] + array_body(items) + seq![']']
}

/// The comma-separated body of a string array.
pub open spec fn array_body(items: Seq<Seq<char>>) -> Seq<char>
    decreases items.len(),
{
    if items.len() == 0 {
        Seq::empty()
    } else if items.len() == 1 {
        json_string(items[0])
    } else {
        array_body(items.drop_last()) + seq![','] + json_string(items.last())
    }
}

/// Appends a JSON string literal for `s`.
pub fn write_json_string(out: &mut String, s: &str)
    ensures
        final(out)@ == old(out)@ + json_string(s@),
{
    text::push_char(out, '"');
    let n = s.unicode_len();
    let mut i: usize = 0;
    proof {
        assert(s@.subrange(0, 0) =~= Seq::<char>::empty());
        assert(out@ =~= old(out)@ + seq!['"'] + escape_seq(s@.subrange(0, 0)));
    }
    while i < n
        invariant
            0 <= i <= n,
            n == s@.len(),
            out@ =~= old(out)@ + seq!['"'] + escape_seq(s@.subrange(0, i as int)),
        decreases n - i,
    {
        let ghost prefix = s@.subrange(0, i as int);
        let ghost next = s@.subrange(0, i + 1);
        proof {
            assert(next.drop_last() =~= prefix);
            assert(next.last() == s@[i as int]);
        }
        let c = s.get_char(i);
        if c == '"' {
            text::push_char(out, '\\');
            text::push_char(out, '"');
        } else if c == '\\' {
            text::push_char(out, '\\');
            text::push_char(out, '\\');
        } else if c == '\n' {
            text::push_char(out, '\\');
            text::push_char(out, 'n');
        } else if c == '\r' {
            text::push_char(out, '\\');
            text::push_char(out, 'r');
        } else if c == '\t' {
            text::push_char(out, '\\');
            text::push_char(out, 't');
        } else {
            text::push_char(out, c);
        }
        proof {
            assert(out@ =~= old(out)@ + seq!['"'] + escape_seq(next));
        }
        i += 1;
    }
    text::push_char(out, '"');
    proof {
        assert(s@.subrange(0, n as int) =~= s@);
        assert(out@ =~= old(out)@ + json_string(s@));
    }
}

/// The decimal rendering of a `u32`, as `dec_string` describes.
pub fn u32_string(n: u32) -> (r: String)
    ensures
        r@ == dec_string(n as nat),
    decreases n,
{
    if n < 10 {
        let mut out = String::new();
        text::push_char(&mut out, text::digit_char(n));
        proof {
            assert(out@ =~= dec_string(n as nat));
        }
        out
    } else {
        let mut out = u32_string(n / 10);
        text::push_char(&mut out, text::digit_char(n % 10));
        proof {
            assert(out@ =~= dec_string(n as nat));
        }
        out
    }
}

/// Reads a JSON string literal starting at `i`.  On success the consumed
/// slice renders the returned content, exactly.
pub fn parse_json_string_at(s: &str, i: usize) -> (r: Option<(String, usize)>)
    requires
        i <= s@.len(),
    ensures
        r matches Some(p) ==> i < p.1 <= s@.len() && s@.subrange(i as int, p.1 as int)
            == json_string(p.0@),
{
    let n = s.unicode_len();
    if i >= n || s.get_char(i) != '"' {
        return None;
    }
    let mut content = String::new();
    let mut j = i + 1;
    proof {
        assert(content@ =~= Seq::<char>::empty());
        assert(s@.subrange(i + 1, j as int) =~= escape_seq(content@));
    }
    while j < n
        invariant
            i + 1 <= j <= n,
            n == s@.len(),
            s@[i as int] == '"',
            s@.subrange(i + 1, j as int) =~= escape_seq(content@),
        decreases n - j,
    {
        let ghost content_old = content@;
        let c = s.get_char(j);
        if c == '"' {
            proof {
                assert(s@.subrange(i as int, j + 1) =~= seq!['"'] + escape_seq(content@)
                    + seq!['"']);
            }
            return Some((content, j + 1));
        }
        if c == '\\' {
            if j + 1 >= n {
                return None;
            }
            let e = s.get_char(j + 1);
            let decoded: char = if e == '"' {
                '"'
            } else if e == '\\' {
                '\\'
            } else if e == 'n' {
                '\n'
            } else if e == 'r' {
                '\r'
            } else if e == 't' {
                '\t'
            } else {
                return None;
            };
            text::push_char(&mut content, decoded);
            proof {
                assert(escape_char(decoded) =~= seq![s@[j as int], s@[j + 1]]);
                assert(content@.drop_last() =~= content_old);
                assert(s@.subrange(i + 1, j + 2) =~= s@.subrange(i + 1, j as int) + seq![
                    s@[j as int],
                    s@[j + 1],
                ]);
                assert(s@.subrange(i + 1, j + 2) =~= escape_seq(content@));
            }
            j += 2;
        } else {
            if (c as u32) < 32 {
                return None;
            }
            text::push_char(&mut content, c);
            proof {
                assert(escape_char(c) =~= seq![c]);
                assert(content@.drop_last() =~= content_old);
                assert(s@.subrange(i + 1, j + 1) =~= s@.subrange(i + 1, j as int) + seq![
                    s@[j as int],
                ]);
                assert(s@.subrange(i + 1, j + 1) =~= escape_seq(content@));
            }
            j += 1;
        }
    }
    None
}

/// Reads a decimal `u32` starting at `i`.  On success the consumed slice
/// is the value's canonical rendering: a leading zero stands alone.
pub fn parse_u32_at(s: &str, i: usize) -> (r: Option<(u32, usize)>)
    requires
        i <= s@.len(),
    ensures
        r matches Some(p) ==> i < p.1 <= s@.len() && s@.subrange(i as int, p.1 as int)
            == dec_string(p.0 as nat),
{
    let n = s.unicode_len();
    if i >= n {
        return None;
    }
    let first = s.get_char(i);
    if !('0' <= first && first <= '9') {
        return None;
    }
    if first == '0' {
        proof {
            assert(s@.subrange(i as int, i + 1) =~= seq!['0']);
            assert(dec_string(0) =~= seq![text::digit_char_of(0)]);
        }
        return Some((0, i + 1));
    }
    let mut acc: u32 = ((first as u32) - 48);
    let mut j = i + 1;
    proof {
        assert(s@.subrange(i as int, j as int) =~= seq![s@[i as int]]);
        assert(s@.subrange(i as int, j as int) =~= dec_string(acc as nat));
    }
    while j < n
        invariant
            i < j <= n,
            n == s@.len(),
            1 <= acc,
            s@.subrange(i as int, j as int) =~= dec_string(acc as nat),
        decreases n - j,
    {
        let c = s.get_char(j);
        if !('0' <= c && c <= '9') {
            return Some((acc, j));
        }
        let d: u32 = (c as u32) - 48;
        if acc > (0xffff_ffff - d) / 10 {
            return None;
        }
        proof {
            assert(dec_string((acc * 10 + d) as nat) =~= dec_string(acc as nat) + seq![
                text::digit_char_of(d as nat),
            ]) by {
                assert((acc * 10 + d) as nat / 10 == acc as nat) by (nonlinear_arith)
                    requires
                        acc >= 1,
                        0 <= d < 10,
                ;
                assert((acc * 10 + d) as nat % 10 == d as nat) by (nonlinear_arith)
                    requires
                        acc >= 1,
                        0 <= d < 10,
                ;
            }
            assert(text::digit_char_of(d as nat) == c);
            assert(s@.subrange(i as int, j + 1) =~= s@.subrange(i as int, j as int) + seq![
                s@[j as int],
            ]);
        }
        acc = acc * 10 + d;
        j += 1;
    }
    Some((acc, j))
}

/// Reads `true` or `false` starting at `i`; the consumed slice is the
/// boolean's rendering.
pub fn parse_bool_at(s: &str, i: usize) -> (r: Option<(bool, usize)>)
    requires
        i <= s@.len(),
    ensures
        r matches Some(p) ==> i < p.1 <= s@.len() && s@.subrange(i as int, p.1 as int)
            == json_bool(p.0),
{
    let n = s.unicode_len();
    if n - i >= 4 && s.get_char(i) == 't' && s.get_char(i + 1) == 'r' && s.get_char(i + 2) == 'u'
        && s.get_char(i + 3) == 'e' {
        proof {
            reveal_strlit("true");
            assert(s@.subrange(i as int, i + 4) =~= "true"@);
        }
        return Some((true, i + 4));
    }
    if n - i >= 5 && s.get_char(i) == 'f' && s.get_char(i + 1) == 'a' && s.get_char(i + 2) == 'l'
        && s.get_char(i + 3) == 's' && s.get_char(i + 4) == 'e' {
        proof {
            reveal_strlit("false");
            assert(s@.subrange(i as int, i + 5) =~= "false"@);
        }
        return Some((false, i + 5));
    }
    None
}

/// Reads a JSON array of string literals starting at `i`; the consumed
/// slice is the array's rendering.
pub fn parse_string_array_at(s: &str, i: usize) -> (r: Option<(Vec<String>, usize)>)
    requires
        i <= s@.len(),
    ensures
        r matches Some(p) ==> i < p.1 <= s@.len() && s@.subrange(i as int, p.1 as int)
            == json_string_array(p.0@.map_values(|x: String| x@)),
{
    let n = s.unicode_len();
    if i >= n || s.get_char(i) != '[' {
        return None;
    }
    let mut items: Vec<String> = Vec::new();
    if i + 1 < n && s.get_char(i + 1) == ']' {
        proof {
            assert(items@.map_values(|x: String| x@) =~= Seq::<Seq<char>>::empty());
            assert(s@.subrange(i as int, i + 2) =~= seq!['[', ']']);
            assert(json_string_array(Seq::empty()) =~= seq!['[', ']']);
        }
        return Some((items, i + 2));
    }
    let mut j = i + 1;
    loop
        invariant
            i + 1 <= j <= n,
            n == s@.len(),
            s@[i as int] == '[',
            items@.len() == 0 ==> j == i + 1,
            items@.len() >= 1 ==> i + 2 <= j && s@[j - 1] == ',' && s@.subrange(i + 1, j - 1)
                =~= array_body(items@.map_values(|x: String| x@)),
        decreases n - j,
    {
        let ghost items_old = items@.map_values(|x: String| x@);
        let (piece, next) = match parse_json_string_at(s, j) {
            Some(p) => p,
            None => {
                return None;
            },
        };
        items.push(piece);
        proof {
            let iv = items@.map_values(|x: String| x@);
            assert(iv.drop_last() =~= items_old);
            assert(s@.subrange(j as int, next as int) == json_string(iv.last()));
            if items_old.len() == 0 {
                assert(s@.subrange(i + 1, next as int) =~= s@.subrange(j as int, next as int));
                assert(array_body(iv) == json_string(iv[0]));
                assert(s@.subrange(i + 1, next as int) =~= array_body(iv));
            } else {
                assert(s@[j - 1] == ',');
                assert(s@.subrange(i + 1, next as int) =~= s@.subrange(i + 1, j - 1) + seq![',']
                    + s@.subrange(j as int, next as int));
                assert(array_body(iv) == array_body(items_old) + seq![','] + json_string(
                    iv.last(),
                ));
                assert(s@.subrange(i + 1, next as int) =~= array_body(iv));
            }
        }
        if next >= n {
            return None;
        }
        let c = s.get_char(next);
        if c == ']' {
            proof {
                let iv = items@.map_values(|x: String| x@);
                assert(s@.subrange(i as int, next + 1) =~= seq!['['] + s@.subrange(
                    i + 1,
                    next as int,
                ) + seq![']']);
                assert(s@.subrange(i as int, next + 1) =~= json_string_array(iv));
            }
            return Some((items, next + 1));
        }
        if c != ',' {
            return None;
        }
        j = next + 1;
        proof {
            assert(s@[j - 1] == ',');
            assert(s@.subrange(i + 1, j - 1) =~= s@.subrange(i + 1, next as int));
            assert(s@.subrange(i + 1, j - 1) =~= array_body(items@.map_values(|x: String| x@)));
        }
    }
}

} // verus!

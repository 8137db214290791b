//! Normalising North American phone numbers to `(xxx) xxx-xxxx`.

use vstd::prelude::*;
use crate::text::{self, is_digit_char};

verus! {

/// The digit characters of the input, in order.
pub open spec fn digits_of(s: Seq<char>) -> Seq<char>
    decreases s.len(),
{
    if s.len() == 0 {
        Seq::empty()
    } else {
        let rest = digits_of(s.drop_last());
        if is_digit_char(s.last()) {
            rest.push(s.last())
        } else {
            rest
        }
    }
}

/// The digits with a leading country code `1` stripped from an
/// eleven-digit number.
pub open spec fn normalized_digits(s: Seq<char>) -> Seq<char> {
    let d = digits_of(s);
    if d.len() == 11 && d[0] == '1' {
        d.skip(1)
    } else {
        d
    }
}

/// The formatted shape of ten digits: `(abc) def-ghij`.
pub open spec fn formatted_phone(d: Seq<char>) -> Seq<char> {
    seq!['('] + d.subrange(0, 3) + seq![')', ' '] + d.subrange(3, 6) + seq!['-'] + d.subrange(
        6,
        10,
    )
}

/// Formats a phone number: keeps the digits, strips an optional leading
/// country code `1`, and accepts exactly ten remaining digits.
pub fn format_phone(phone: &str) -> (r: Option<String>)
    ensures
        match r {
            Some(out) => normalized_digits(phone@).len() == 10 && out@ == formatted_phone(
                normalized_digits(phone@),
            ),
            None => normalized_digits(phone@).len() != 10,
        },
{
    let n = phone.unicode_len();
    let mut digits = String::new();
    let mut i: usize = 0;
    proof {
        assert(phone@.subrange(0, 0) =~= Seq::<char>::empty());
        assert(digits@ =~= digits_of(phone@.subrange(0, 0)));
    }
    while i < n
        invariant
            0 <= i <= n,
            n == phone@.len(),
            digits@ =~= digits_of(phone@.subrange(0, i as int)),
        decreases n - i,
    {
        let ghost sofar = phone@.subrange(0, i as int);
        let ghost next = phone@.subrange(0, i + 1);
        proof {
            assert(next.drop_last() =~= sofar);
            assert(next.last() == phone@[i as int]);
        }
        let c = phone.get_char(i);
        if '0' <= c && c <= '9' {
            text::push_char(&mut digits, c);
        }
        i += 1;
    }
    proof {
        assert(phone@.subrange(0, n as int) =~= phone@);
    }
    let dn = digits.as_str().unicode_len();
    let ten = if dn == 11 && digits.as_str().get_char(0) == '1' {
        let rest = text::substring(digits.as_str(), 1, 11);
        proof {
            assert(rest@ =~= digits@.skip(1));
        }
        rest
    } else {
        digits
    };
    let tn = ten.as_str().unicode_len();
    if tn != 10 {
        return None;
    }
    let mut out = String::from_str("(");
    let area = text::substring(ten.as_str(), 0, 3);
    out.append(area.as_str());
    out.append(") ");
    let mid = text::substring(ten.as_str(), 3, 6);
    out.append(mid.as_str());
    out.append("-");
    let last = text::substring(ten.as_str(), 6, 10);
    out.append(last.as_str());
    proof {
        reveal_strlit("(");
        reveal_strlit(") ");
        reveal_strlit("-");
        assert(out@ =~= formatted_phone(ten@));
    }
    Some(out)
}

} // verus!

//! Extracting email addresses from free text.

use vstd::prelude::*;
use crate::text::{self, seq_contains_char, tokens_of};

verus! {

/// The tokens of the text that contain an `@`, in order.
pub open spec fn emails_in(toks: Seq<Seq<char>>) -> Seq<Seq<char>>
    decreases toks.len(),
{
    if toks.len() == 0 {
        Seq::empty()
    } else {
        let rest = emails_in(toks.drop_last());
        if seq_contains_char(toks.last(), '@') {
            rest.push(toks.last())
        } else {
            rest
        }
    }
}

/// Collects the white-space-separated words of the text that contain an
/// `@`: a simple address extractor.
pub fn extract_emails(text: &str) -> (r: Vec<String>)
    ensures
        r@.map_values(|s: String| s@) == emails_in(tokens_of(text@)),
{
    let toks = crate::text::split_whitespace_tokens(text);
    let ghost views = toks@.map_values(|s: String| s@);
    let n = toks.len();
    let mut out: Vec<String> = Vec::new();
    let mut i: usize = 0;
    proof {
        assert(views.subrange(0, 0) =~= Seq::<Seq<char>>::empty());
        assert(out@.map_values(|s: String| s@) =~~= emails_in(views.subrange(0, 0)));
    }
    while i < n
        invariant
            0 <= i <= n,
            n == toks@.len(),
            views == toks@.map_values(|s: String| s@),
            views.len() == n,
            out@.map_values(|s: String| s@) =~~= emails_in(views.subrange(0, i as int)),
        decreases n - i,
    {
        let ghost sofar = views.subrange(0, i as int);
        let ghost next = views.subrange(0, i + 1);
        proof {
            assert(next.drop_last() =~= sofar);
            assert(next.last() == views[i as int]);
        }
        if text::str_contains_char(toks[i].as_str(), '@') {
            let ghost ov = out@.map_values(|s: String| s@);
            let token = toks[i].clone();
            out.push(token);
            proof {
                assert(out@.map_values(|s: String| s@) =~~= ov.push(views[i as int]));
            }
        }
        i += 1;
    }
    proof {
        assert(views.subrange(0, n as int) =~= views);
        assert(emails_in(views) =~~= emails_in(tokens_of(text@)));
    }
    out
}

} // verus!

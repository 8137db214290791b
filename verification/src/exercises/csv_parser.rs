//! A minimal CSV reader: rows split on line breaks, fields on commas.

use vstd::prelude::*;
use crate::text::{self, split_seq};

verus! {

/// Splits the data into rows and each row into fields.  No quoting: every
/// comma separates, every line break ends a row.
pub fn parse_csv(data: &str) -> (r: Vec<Vec<String>>)
    ensures
        r@.len() == split_seq(data@, '\n').len(),
        forall|i: int|
            0 <= i < r@.len() ==> (#[trigger] r@[i])@.map_values(|f: String| f@) == split_seq(
                split_seq(data@, '\n')[i],
                ',',
            ),
{
    let lines = text::split_char(data, '\n');
    let ghost line_views = lines@.map_values(|s: String| s@);
    let n = lines.len();
    let mut rows: Vec<Vec<String>> = Vec::new();
    let mut i: usize = 0;
    while i < n
        invariant
            0 <= i <= n,
            n == lines@.len(),
            line_views == lines@.map_values(|s: String| s@),
            line_views == split_seq(data@, '\n'),
            line_views.len() == n,
            rows@.len() == i,
            forall|k: int|
                0 <= k < i ==> (#[trigger] rows@[k])@.map_values(|f: String| f@) == split_seq(
                    line_views[k],
                    ',',
                ),
        decreases n - i,
    {
        let fields = text::split_char(lines[i].as_str(), ',');
        rows.push(fields);
        i += 1;
    }
    rows
}

} // verus!

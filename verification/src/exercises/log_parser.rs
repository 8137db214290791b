//! Reading structured log lines of the shape `[timestamp] LEVEL: message`.

use vstd::prelude::*;
use crate::text::{self, first_index_of};

verus! {

/// One parsed log line.
#[derive(Debug)]
pub struct LogEntry {
    /// The text between the square brackets.
    pub timestamp: String,
    /// The level word before the colon.
    pub level: String,
    /// Everything after the colon and its following space.
    pub message: String,
}

/// What a well-formed line decomposes into: the bracketed timestamp up to
/// the first `]`, a space, the level up to the first `:` after it, then
/// `: ` and the message.
pub open spec fn log_parts(s: Seq<char>) -> Option<(Seq<char>, Seq<char>, Seq<char>)> {
    if s.len() == 0 || s[0] != '[' {
        None
    } else {
        match first_index_of(s, ']') {
            None => None,
            Some(i) => {
                let ts = s.subrange(1, i);
                let rest = s.skip(i + 1);
                if rest.len() == 0 || rest[0] != ' ' {
                    None
                } else {
                    let rest2 = rest.skip(1);
                    match first_index_of(rest2, ':') {
                        None => None,
                        Some(j) => {
                            let level = rest2.subrange(0, j);
                            let after = rest2.skip(j + 1);
                            if after.len() == 0 || after[0] != ' ' {
                                None
                            } else {
                                Some((ts, level, after.skip(1)))
                            }
                        },
                    }
                }
            },
        }
    }
}

/// Splits a log line into timestamp, level and message; refuses a line
/// without that shape.
pub fn parse_log_line(line: &str) -> (r: Option<LogEntry>)
    ensures
        match r {
            Some(e) => log_parts(line@) matches Some(parts) && e.timestamp@ == parts.0
                && e.level@ == parts.1 && e.message@ == parts.2,
            None => log_parts(line@) is None,
        },
{
    let n = line.unicode_len();
    if n == 0 || line.get_char(0) != '[' {
        return None;
    }
    let i = match text::find_char(line, ']') {
        Some(i) => {
            proof {
                text::lemma_first_index_is(line@, ']', i as int);
            }
            i
        },
        None => {
            proof {
                text::lemma_first_index_none(line@, ']');
            }
            return None;
        },
    };
    let ts = text::substring(line, 1, i);
    if i + 1 >= n || line.get_char(i + 1) != ' ' {
        proof {
            let rest = line@.skip(i + 1);
            if i + 1 < n {
                assert(rest[0] == line@[i + 1]);
            }
        }
        return None;
    }
    let rest_start = i + 2;
    let rest = text::substring(line, rest_start, n);
    proof {
        assert(rest@ =~= line@.skip(i + 1).skip(1));
        assert(line@.skip(i + 1)[0] == line@[i + 1]);
    }
    let j = match text::find_char(rest.as_str(), ':') {
        Some(j) => {
            proof {
                text::lemma_first_index_is(rest@, ':', j as int);
            }
            j
        },
        None => {
            proof {
                text::lemma_first_index_none(rest@, ':');
            }
            return None;
        },
    };
    let level = text::substring(rest.as_str(), 0, j);
    let m = rest.as_str().unicode_len();
    if j + 1 >= m || rest.as_str().get_char(j + 1) != ' ' {
        proof {
            let after = rest@.skip(j + 1);
            if j + 1 < m {
                assert(after[0] == rest@[j + 1]);
            }
        }
        return None;
    }
    let message = text::substring(rest.as_str(), j + 2, m);
    proof {
        assert(level@ =~= rest@.subrange(0, j as int));
        assert(rest@.skip(j + 1)[0] == rest@[j + 1]);
        assert(message@ =~= rest@.skip(j + 1).skip(1));
        assert(ts@ =~= line@.subrange(1, i as int));
    }
    Some(LogEntry { timestamp: ts, level, message })
}

} // verus!

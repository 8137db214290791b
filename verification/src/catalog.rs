//! The static exercise catalog: which files count as exercises, the order
//! they are presented in, and the title and description drawn from a file's
//! leading doc comments.

use vstd::prelude::*;
use vstd::multiset::Multiset;
use crate::text::{
    self, ends_with, join_spaces, lex_le, split_seq, starts_with, trim_seq,
};

verus! {

/// A file name that counts as an exercise: a `.rs` file not starting with an
/// underscore.
pub open spec fn is_exercise_file(name: Seq<char>) -> bool {
    ends_with(name, ".rs"@) && !(name.len() >= 1 && name[0] == '_')
}

/// The exercise files of a listing, in listing order.
pub open spec fn exercise_files_of(names: Seq<Seq<char>>) -> Seq<Seq<char>>
    decreases names.len(),
{
    if names.len() == 0 {
        Seq::empty()
    } else {
        let rest = exercise_files_of(names.drop_last());
        if is_exercise_file(names.last()) {
            rest.push(names.last())
        } else {
            rest
        }
    }
}

/// Sorted in non-decreasing lexicographic order.
pub open spec fn sorted_names(v: Seq<Seq<char>>) -> bool {
    forall|i: int, j: int| 0 <= i < j < v.len() ==> lex_le(v[i], v[j])
}

/// The order is reflexive.
proof fn lemma_lex_le_refl(a: Seq<char>)
    ensures
        lex_le(a, a),
    decreases a.len(),
{
    if a.len() > 0 {
        lemma_lex_le_refl(a.drop_first());
    }
}

/// Decides `is_exercise_file`.
fn check_exercise_file(name: &str) -> (r: bool)
    ensures
        r == is_exercise_file(name@),
{
    let ends = text::str_ends_with(name, ".rs");
    let hidden = text::str_starts_with(name, "_");
    proof {
        if name@.len() >= 1 {
            assert(starts_with(name@, "_"@) == (name@[0] == '_')) by {
                reveal_strlit("_");
                if starts_with(name@, "_"@) {
                    assert(name@.subrange(0, 1)[0] == name@[0]);
                } else if name@[0] == '_' {
                    assert(name@.subrange(0, 1) =~= "_"@);
                }
            }
        } else {
            reveal_strlit("_");
        }
    }
    ends && !hidden
}

/// Keeps the exercise files of a directory listing and sorts them: the
/// catalog's authoritative order.  The result holds exactly the listing's
/// exercise files, in non-decreasing lexicographic order.
pub fn select_exercise_files(names: Vec<String>) -> (r: Vec<String>)
    ensures
        sorted_names(r@.map_values(|s: String| s@)),
        r@.map_values(|s: String| s@).to_multiset() == exercise_files_of(
            names@.map_values(|s: String| s@),
        ).to_multiset(),
{
    let ghost views = names@.map_values(|s: String| s@);
    let n = names.len();
    let mut kept: Vec<String> = Vec::new();
    let mut i: usize = 0;
    proof {
        assert(views.subrange(0, 0) =~= Seq::<Seq<char>>::empty());
        assert(kept@.map_values(|s: String| s@) =~~= exercise_files_of(views.subrange(0, 0)));
    }
    while i < n
        invariant
            0 <= i <= n,
            n == names@.len(),
            views == names@.map_values(|s: String| s@),
            views.len() == n,
            kept@.map_values(|s: String| s@) =~~= exercise_files_of(views.subrange(0, i as int)),
        decreases n - i,
    {
        let ghost sofar = views.subrange(0, i as int);
        let ghost next = views.subrange(0, i + 1);
        proof {
            assert(next.drop_last() =~= sofar);
            assert(next.last() == views[i as int]);
        }
        if check_exercise_file(names[i].as_str()) {
            let ghost kv = kept@.map_values(|s: String| s@);
            let item = names[i].clone();
            kept.push(item);
            proof {
                assert(kept@.map_values(|s: String| s@) =~~= kv.push(views[i as int]));
            }
        }
        i += 1;
    }
    proof {
        assert(views.subrange(0, n as int) =~= views);
    }
    sort_names(kept)
}

/// Sorts strings into non-decreasing lexicographic order; the result holds
/// exactly the input's strings.
pub fn sort_names(input: Vec<String>) -> (r: Vec<String>)
    ensures
        sorted_names(r@.map_values(|s: String| s@)),
        r@.map_values(|s: String| s@).to_multiset() == input@.map_values(
            |s: String| s@,
        ).to_multiset(),
{
    broadcast use vstd::seq_lib::group_to_multiset_ensures;
    broadcast use vstd::multiset::group_multiset_axioms;

    let ghost orig = input@.map_values(|s: String| s@);
    let mut rest = input;
    let mut out: Vec<String> = Vec::new();
    proof {
        assert(out@.map_values(|s: String| s@).to_multiset() =~= Multiset::<Seq<char>>::empty());
        assert(out@.map_values(|s: String| s@).to_multiset().add(
            rest@.map_values(|s: String| s@).to_multiset(),
        ) =~= orig.to_multiset());
    }
    while rest.len() > 0
        invariant
            out@.map_values(|s: String| s@).to_multiset().add(
                rest@.map_values(|s: String| s@).to_multiset(),
            ) == orig.to_multiset(),
            sorted_names(out@.map_values(|s: String| s@)),
            forall|a: int, b: int|
                0 <= a < out@.len() && 0 <= b < rest@.len() ==> lex_le(
                    (#[trigger] out@[a])@,
                    (#[trigger] rest@[b])@,
                ),
        decreases rest@.len(),
    {
        let ghost rv = rest@.map_values(|s: String| s@);
        let ghost ov = out@.map_values(|s: String| s@);
        let m = rest.len();
        let mut best: usize = 0;
        let mut j: usize = 1;
        proof {
            lemma_lex_le_refl(rv[0]);
        }
        while j < m
            invariant
                0 <= best < j <= m,
                m == rest@.len(),
                rv == rest@.map_values(|s: String| s@),
                rv.len() == m,
                forall|k: int| 0 <= k < j ==> lex_le(rv[best as int], #[trigger] rv[k]),
            decreases m - j,
        {
            let smaller = text::str_le(rest[j].as_str(), rest[best].as_str());
            proof {
                text::lemma_lex_le_total(rv[j as int], rv[best as int]);
            }
            if smaller {
                proof {
                    assert forall|k: int| 0 <= k < j + 1 implies lex_le(
                        rv[j as int],
                        #[trigger] rv[k],
                    ) by {
                        if k < j {
                            text::lemma_lex_le_trans(rv[j as int], rv[best as int], rv[k]);
                        } else {
                            lemma_lex_le_refl(rv[j as int]);
                        }
                    }
                }
                best = j;
            }
            j += 1;
        }
        let x = rest.remove(best);
        out.push(x);
        proof {
            assert(out@.map_values(|s: String| s@) =~~= ov.push(rv[best as int]));
            assert(rest@.map_values(|s: String| s@) =~~= rv.remove(best as int));
            // multiset bookkeeping: moving one element across
            let moved = rv[best as int];
            ov.to_multiset_ensures();
            rv.to_multiset_ensures();
            assert(ov.push(moved).to_multiset() =~= ov.to_multiset().insert(moved));
            assert(rv.remove(best as int).to_multiset() =~= rv.to_multiset().remove(moved));
            assert(ov.to_multiset().insert(moved).add(rv.to_multiset().remove(moved))
                =~= ov.to_multiset().add(rv.to_multiset()));
            // the extracted minimum keeps both order invariants
            assert forall|a: int, b: int|
                0 <= a < out@.len() && 0 <= b < rest@.len() implies lex_le(
                (#[trigger] out@[a])@,
                (#[trigger] rest@[b])@,
            ) by {
                let outv = out@.map_values(|s: String| s@);
                let restv = rest@.map_values(|s: String| s@);
                if a < ov.len() {
                    assert(outv[a] == ov[a]);
                    if b < best {
                        assert(restv[b] == rv[b]);
                    } else {
                        assert(restv[b] == rv[b + 1]);
                    }
                } else {
                    assert(outv[a] == moved);
                    if b < best {
                        assert(restv[b] == rv[b]);
                        assert(lex_le(moved, rv[b]));
                    } else {
                        assert(restv[b] == rv[b + 1]);
                        assert(lex_le(moved, rv[b + 1]));
                    }
                }
            }
            assert(sorted_names(out@.map_values(|s: String| s@))) by {
                let outv = out@.map_values(|s: String| s@);
                assert forall|p: int, q: int| 0 <= p < q < outv.len() implies lex_le(
                    outv[p],
                    outv[q],
                ) by {
                    if q < ov.len() {
                        assert(outv[p] == ov[p] && outv[q] == ov[q]);
                    } else {
                        assert(outv[q] == moved);
                        assert(outv[p] == ov[p]);
                        assert(lex_le(ov[p], rv[best as int]));
                    }
                }
            }
        }
    }
    proof {
        assert(rest@.map_values(|s: String| s@).len() == 0);
        assert(rest@.map_values(|s: String| s@).to_multiset() =~= Multiset::<Seq<char>>::empty());
        assert(out@.map_values(|s: String| s@).to_multiset() =~= out@.map_values(
            |s: String| s@,
        ).to_multiset().add(rest@.map_values(|s: String| s@).to_multiset()));
    }
    out
}

/// The exercise name of a catalog file: the file name without `.rs`.
pub fn exercise_stem(file_name: &str) -> (r: String)
    requires
        ends_with(file_name@, ".rs"@),
    ensures
        r@ == file_name@.subrange(0, file_name@.len() - 3),
{
    proof {
        reveal_strlit(".rs");
    }
    let n = file_name.unicode_len();
    text::substring(file_name, 0, n - 3)
}

/// What the documentation scanner knows after some lines.
pub struct DocScan {
    /// A leading doc-comment block has started.
    pub in_doc: bool,
    /// A heading line has been taken as the title.
    pub found_title: bool,
    /// The title, empty until found.
    pub title: Seq<char>,
    /// The description lines collected after the title.
    pub desc: Seq<Seq<char>>,
    /// The block ended: a later line can change nothing.
    pub stopped: bool,
}

/// Before any line is read.
pub open spec fn doc_scan_init() -> DocScan {
    DocScan {
        in_doc: false,
        found_title: false,
        title: Seq::empty(),
        desc: Seq::empty(),
        stopped: false,
    }
}

/// The line, trimmed, is an inner doc comment.
pub open spec fn is_doc_line(line: Seq<char>) -> bool {
    starts_with(trim_seq(line), "//!"@)
}

/// The line, trimmed, is some comment.
pub open spec fn is_comment_line(line: Seq<char>) -> bool {
    starts_with(trim_seq(line), "//"@)
}

/// The documentation text of a doc line: everything after the marker,
/// trimmed.
pub open spec fn doc_content(line: Seq<char>) -> Seq<char> {
    trim_seq(trim_seq(line).skip(3))
}

/// How one line advances the scanner: a doc line may contribute the title
/// (its first `# ` heading) or a description line (any non-empty content
/// after the title); the first non-comment line after the block stops it.
pub open spec fn doc_scan_step(st: DocScan, line: Seq<char>) -> DocScan {
    if st.stopped {
        st
    } else if is_doc_line(line) {
        let d = doc_content(line);
        if !st.found_title && starts_with(d, "# "@) {
            DocScan {
                in_doc: true,
                found_title: true,
                title: d.skip(2),
                desc: st.desc,
                stopped: false,
            }
        } else if st.found_title && d.len() > 0 {
            DocScan {
                in_doc: true,
                found_title: st.found_title,
                title: st.title,
                desc: st.desc.push(d),
                stopped: false,
            }
        } else {
            DocScan {
                in_doc: true,
                found_title: st.found_title,
                title: st.title,
                desc: st.desc,
                stopped: false,
            }
        }
    } else if st.in_doc && !is_comment_line(line) {
        DocScan {
            in_doc: st.in_doc,
            found_title: st.found_title,
            title: st.title,
            desc: st.desc,
            stopped: true,
        }
    } else {
        st
    }
}

/// The scanner run over all lines, oldest first.
pub open spec fn doc_scan(lines: Seq<Seq<char>>) -> DocScan
    decreases lines.len(),
{
    if lines.len() == 0 {
        doc_scan_init()
    } else {
        doc_scan_step(doc_scan(lines.drop_last()), lines.last())
    }
}

/// The title of a file's content: its first doc-comment heading, or the
/// fallback when the content names none.
pub open spec fn doc_title(content: Seq<char>, fallback: Seq<char>) -> Seq<char> {
    let st = doc_scan(split_seq(content, '\n'));
    if st.title.len() == 0 {
        fallback
    } else {
        st.title
    }
}

/// The description of a file's content: the doc-comment lines after the
/// title, joined with single spaces.
pub open spec fn doc_description(content: Seq<char>) -> Seq<char> {
    join_spaces(doc_scan(split_seq(content, '\n')).desc)
}

/// Reads title and description from a file's text: the first `# ` heading of
/// the leading doc-comment block becomes the title, later non-empty
/// doc-comment lines become the description, and the block ends at the first
/// line that is no comment.  A file without a heading gets the fallback
/// title.
pub fn parse_exercise_docs(content: &str, fallback: &str) -> (r: (String, String))
    ensures
        r.0@ == doc_title(content@, fallback@),
        r.1@ == doc_description(content@),
{
    let lines = text::split_char(content, '\n');
    let ghost line_views = lines@.map_values(|s: String| s@);
    proof {
        assert(line_views == split_seq(content@, '\n'));
    }
    let n = lines.len();
    let mut in_doc = false;
    let mut found_title = false;
    let mut stopped = false;
    let mut title = String::new();
    let mut desc: Vec<String> = Vec::new();
    let mut i: usize = 0;
    proof {
        assert(line_views.subrange(0, 0) =~= Seq::<Seq<char>>::empty());
    }
    while i < n
        invariant
            0 <= i <= n,
            n == lines@.len(),
            line_views == lines@.map_values(|s: String| s@),
            line_views.len() == n,
            ({
                let st = doc_scan(line_views.subrange(0, i as int));
                &&& st.stopped == stopped
                &&& st.in_doc == in_doc
                &&& st.found_title == found_title
                &&& st.title == title@
                &&& st.desc =~~= desc@.map_values(|s: String| s@)
            }),
        decreases n - i,
    {
        let ghost sofar = line_views.subrange(0, i as int);
        let ghost next = line_views.subrange(0, i + 1);
        proof {
            assert(next.drop_last() =~= sofar);
            assert(next.last() == line_views[i as int]);
            assert(line_views[i as int] == lines@[i as int]@);
        }
        if !stopped {
            let trimmed = text::trim(lines[i].as_str());
            let is_doc = text::str_starts_with(trimmed.as_str(), "//!");
            if is_doc {
                in_doc = true;
                let tn = trimmed.as_str().unicode_len();
                proof {
                    reveal_strlit("//!");
                    assert(trimmed@.subrange(0, 3) == "//!"@);
                    assert(tn >= 3);
                }
                let after = text::substring(trimmed.as_str(), 3, tn);
                let d = text::trim(after.as_str());
                proof {
                    assert(after@ =~= trimmed@.skip(3));
                    assert(d@ == doc_content(line_views[i as int]));
                }
                let is_heading = text::str_starts_with(d.as_str(), "# ");
                if !found_title && is_heading {
                    let dn = d.as_str().unicode_len();
                    proof {
                        reveal_strlit("# ");
                        assert(d@.subrange(0, 2) == "# "@);
                        assert(dn >= 2);
                    }
                    title = text::substring(d.as_str(), 2, dn);
                    found_title = true;
                    proof {
                        assert(title@ =~= d@.skip(2));
                    }
                } else if found_title && d.as_str().unicode_len() > 0 {
                    let ghost dv = desc@.map_values(|s: String| s@);
                    desc.push(d);
                    proof {
                        assert(desc@.map_values(|s: String| s@) =~~= dv.push(
                            doc_content(line_views[i as int]),
                        ));
                    }
                }
            } else {
                let is_comment = text::str_starts_with(trimmed.as_str(), "//");
                if in_doc && !is_comment {
                    stopped = true;
                }
            }
        }
        i += 1;
    }
    proof {
        assert(line_views.subrange(0, n as int) =~= line_views);
    }
    let description = text::join_with_spaces(&desc);
    if title.as_str().unicode_len() == 0 {
        (fallback.to_owned(), description)
    } else {
        (title, description)
    }
}

} // verus!

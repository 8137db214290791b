//! Data processing patterns: filtering, mapping and summing collections.

use vstd::prelude::*;
use crate::text;

verus! {

/// A user name counts as active when it starts with an `a`, in either case.
pub open spec fn is_active_name(s: Seq<char>) -> bool {
    s.len() > 0 && (s[0] == 'a' || s[0] == 'A')
}

/// The active user names of a list, in order.
pub open spec fn active_users_of(names: Seq<Seq<char>>) -> Seq<Seq<char>>
    decreases names.len(),
{
    if names.len() == 0 {
        Seq::empty()
    } else {
        let rest = active_users_of(names.drop_last());
        if is_active_name(names.last()) {
            rest.push(names.last())
        } else {
            rest
        }
    }
}

/// Keeps the user names that start with an `a`.
pub fn filter_active_users<'a>(usernames: Vec<&'a str>) -> (r: Vec<&'a str>)
    ensures
        r@.map_values(|s: &str| s@) == active_users_of(usernames@.map_values(|s: &str| s@)),
{
    let ghost views = usernames@.map_values(|s: &str| s@);
    let n = usernames.len();
    let mut out: Vec<&str> = Vec::new();
    let mut i: usize = 0;
    proof {
        assert(views.subrange(0, 0) =~= Seq::<Seq<char>>::empty());
        assert(out@.map_values(|s: &str| s@) =~~= active_users_of(views.subrange(0, 0)));
    }
    while i < n
        invariant
            0 <= i <= n,
            n == usernames@.len(),
            views == usernames@.map_values(|s: &str| s@),
            views.len() == n,
            out@.map_values(|s: &str| s@) =~~= active_users_of(views.subrange(0, i as int)),
        decreases n - i,
    {
        let ghost sofar = views.subrange(0, i as int);
        let ghost next = views.subrange(0, i + 1);
        proof {
            assert(next.drop_last() =~= sofar);
            assert(next.last() == views[i as int]);
        }
        let name = usernames[i];
        let active = if name.unicode_len() > 0 {
            let c = name.get_char(0);
            c == 'a' || c == 'A'
        } else {
            false
        };
        if active {
            let ghost ov = out@.map_values(|s: &str| s@);
            out.push(name);
            proof {
                assert(out@.map_values(|s: &str| s@) =~~= ov.push(views[i as int]));
            }
        }
        i += 1;
    }
    proof {
        assert(views.subrange(0, n as int) =~= views);
    }
    out
}

/// Lower-cases every address, character for character.
pub fn normalize_emails(emails: Vec<String>) -> (r: Vec<String>)
    ensures
        r@.len() == emails@.len(),
        forall|i: int|
            0 <= i < r@.len() ==> (#[trigger] r@[i])@ == text::lower_seq(emails@[i]@),
{
    let n = emails.len();
    let mut out: Vec<String> = Vec::new();
    let mut i: usize = 0;
    while i < n
        invariant
            0 <= i <= n,
            n == emails@.len(),
            out@.len() == i,
            forall|k: int| 0 <= k < i ==> (#[trigger] out@[k])@ == text::lower_seq(emails@[k]@),
        decreases n - i,
    {
        let lowered = text::to_lower(emails[i].as_str());
        out.push(lowered);
        i += 1;
    }
    out
}

/// The sum of the first `k` figures.
pub open spec fn sum_prefix(s: Seq<i32>, k: int) -> int
    decreases k,
{
    if k <= 0 {
        0
    } else {
        sum_prefix(s, k - 1) + s[k - 1]
    }
}

/// The partial sums of the sales figures, written out.
proof fn lemma_sales_sums(s: Seq<i32>)
    requires
        s =~= seq![1200i32, 850i32, 2300i32, 950i32, 1800i32, 3200i32, 1100i32, 2800i32],
    ensures
        sum_prefix(s, 0) == 0,
        sum_prefix(s, 1) == 1200,
        sum_prefix(s, 2) == 2050,
        sum_prefix(s, 3) == 4350,
        sum_prefix(s, 4) == 5300,
        sum_prefix(s, 5) == 7100,
        sum_prefix(s, 6) == 10300,
        sum_prefix(s, 7) == 11400,
        sum_prefix(s, 8) == 14200,
{
    assert(sum_prefix(s, 1) == sum_prefix(s, 0) + 1200);
    assert(sum_prefix(s, 2) == sum_prefix(s, 1) + 850);
    assert(sum_prefix(s, 3) == sum_prefix(s, 2) + 2300);
    assert(sum_prefix(s, 4) == sum_prefix(s, 3) + 950);
    assert(sum_prefix(s, 5) == sum_prefix(s, 4) + 1800);
    assert(sum_prefix(s, 6) == sum_prefix(s, 5) + 3200);
    assert(sum_prefix(s, 7) == sum_prefix(s, 6) + 1100);
    assert(sum_prefix(s, 8) == sum_prefix(s, 7) + 2800);
}

/// Totals the month's sales figures.
pub fn calculate_total_revenue() -> (r: i32)
    ensures
        r == 14200,
{
    let sales: Vec<i32> = vec![1200, 850, 2300, 950, 1800, 3200, 1100, 2800];
    let mut total: i32 = 0;
    let mut i: usize = 0;
    while i < sales.len()
        invariant
            0 <= i <= sales@.len(),
            sales@ =~= seq![1200i32, 850i32, 2300i32, 950i32, 1800i32, 3200i32, 1100i32, 2800i32],
            total == sum_prefix(sales@, i as int),
        decreases sales@.len() - i,
    {
        proof {
            lemma_sales_sums(sales@);
            assert(sum_prefix(sales@, i + 1) == sum_prefix(sales@, i as int) + sales@[i as int]);
        }
        total = total + sales[i];
        i += 1;
    }
    proof {
        lemma_sales_sums(sales@);
    }
    total
}

/// The `.rs` files of a listing, in order.
pub open spec fn rust_files_of(files: Seq<Seq<char>>) -> Seq<Seq<char>>
    decreases files.len(),
{
    if files.len() == 0 {
        Seq::empty()
    } else {
        let rest = rust_files_of(files.drop_last());
        if text::ends_with(files.last(), ".rs"@) {
            rest.push(files.last())
        } else {
            rest
        }
    }
}

/// Keeps the files with the `.rs` extension.
pub fn find_rust_files<'a>(files: &[&'a str]) -> (r: Vec<&'a str>)
    ensures
        r@.map_values(|s: &str| s@) == rust_files_of(files@.map_values(|s: &str| s@)),
{
    let ghost views = files@.map_values(|s: &str| s@);
    let n = files.len();
    let mut out: Vec<&str> = Vec::new();
    let mut i: usize = 0;
    proof {
        assert(views.subrange(0, 0) =~= Seq::<Seq<char>>::empty());
        assert(out@.map_values(|s: &str| s@) =~~= rust_files_of(views.subrange(0, 0)));
    }
    while i < n
        invariant
            0 <= i <= n,
            n == files@.len(),
            views == files@.map_values(|s: &str| s@),
            views.len() == n,
            out@.map_values(|s: &str| s@) =~~= rust_files_of(views.subrange(0, i as int)),
        decreases n - i,
    {
        let ghost sofar = views.subrange(0, i as int);
        let ghost next = views.subrange(0, i + 1);
        proof {
            assert(next.drop_last() =~= sofar);
            assert(next.last() == views[i as int]);
        }
        if text::str_ends_with(files[i], ".rs") {
            let ghost ov = out@.map_values(|s: &str| s@);
            out.push(files[i]);
            proof {
                assert(out@.map_values(|s: &str| s@) =~~= ov.push(views[i as int]));
            }
        }
        i += 1;
    }
    proof {
        assert(views.subrange(0, n as int) =~= views);
    }
    out
}

} // verus!

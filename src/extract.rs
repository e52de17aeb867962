//! Finding the span of a filename that looks like a date and time.
use vstd::prelude::*;
use crate::search::{first_where, last_where, lemma_first_where_found, lemma_first_where_skip, lemma_last_where_skip};
use crate::text::{char_at, char_at_exec, chars_of, digits_at, digits_at_exec, is_sep, opt_view, part};

verus! {

/// The position after an optional `-` or `_` at `i`.
pub open spec fn after_sep(s: Seq<char>, i: int) -> int {
    if 0 <= i < s.len() && is_sep(s[i]) {
        i + 1
    } else {
        i
    }
}

/// The end of a time of day starting at `c`: six digits, or three pairs of
/// digits with a separator between each.
pub open spec fn time_end(s: Seq<char>, c: int) -> Option<int> {
    if digits_at(s, c, 6) {
        Some(c + 6)
    } else if digits_at(s, c, 2) && c + 2 < s.len() && is_sep(s[c + 2]) && digits_at(s, c + 3, 2)
        && c + 5 < s.len() && is_sep(s[c + 5]) && digits_at(s, c + 6, 2) {
        Some(c + 8)
    } else {
        None
    }
}

/// The end of a date and time that starts at `p`: a four-digit year that
/// begins with `20`, a two-digit month and a two-digit day, each optionally
/// preceded by a separator, then an optional separator and a time of day.
pub open spec fn normal_end(s: Seq<char>, p: int) -> Option<int> {
    let a = after_sep(s, p + 4);
    let b = after_sep(s, a + 2);
    let c = after_sep(s, b + 2);
    if digits_at(s, p, 4) && s[p] == '2' && s[p + 1] == '0' && digits_at(s, a, 2) && digits_at(
        s,
        b,
        2,
    ) {
        time_end(s, c)
    } else {
        None
    }
}

/// A messaging-app date at `p`: eight digits that begin with `20`,
/// directly followed by `-WA`.
pub open spec fn messaging_at(s: Seq<char>, p: int) -> bool {
    &&& digits_at(s, p, 8)
    &&& s[p] == '2'
    &&& s[p + 1] == '0'
    &&& char_at(s, p + 8, '-')
    &&& char_at(s, p + 9, 'W')
    &&& char_at(s, p + 10, 'A')
}

pub open spec fn starts_normal(s: Seq<char>) -> spec_fn(int) -> bool {
    |p: int| normal_end(s, p) is Some
}

pub open spec fn starts_messaging(s: Seq<char>) -> spec_fn(int) -> bool {
    |p: int| messaging_at(s, p)
}

/// Where the leftmost date and time starts.
pub open spec fn normal_start(s: Seq<char>) -> Option<int> {
    first_where(0, s.len() as int, starts_normal(s))
}

/// Where the rightmost messaging-app date starts.
pub open spec fn messaging_start(s: Seq<char>) -> Option<int> {
    last_where(s.len() as int, starts_messaging(s))
}

/// The date-and-time span of a filename: the leftmost date and time if there
/// is one, else the rightmost messaging-app date, else nothing.
pub open spec fn extracted(s: Seq<char>) -> Option<Seq<char>> {
    match normal_start(s) {
        Some(p) => Some(s.subrange(p, normal_end(s, p)->Some_0)),
        None => match messaging_start(s) {
            Some(p) => Some(s.subrange(p, p + 8)),
            None => None,
        },
    }
}

fn after_sep_exec(cs: &Vec<char>, i: usize) -> (r: usize)
    requires
        i <= cs@.len(),
    ensures
        r == after_sep(cs@, i as int),
        r <= cs@.len(),
{
    if i < cs.len() && (cs[i] == '-' || cs[i] == '_') {
        i + 1
    } else {
        i
    }
}

fn sep_at_exec(cs: &Vec<char>, i: usize) -> (r: bool)
    ensures
        r == (i < cs@.len() && is_sep(cs@[i as int])),
{
    i < cs.len() && (cs[i] == '-' || cs[i] == '_')
}

fn time_end_exec(cs: &Vec<char>, c: usize) -> (r: Option<usize>)
    requires
        c <= cs.len(),
    ensures
        time_end(cs@, c as int) == (match r {
            Some(e) => Some(e as int),
            None => None,
        }),
{
    if digits_at_exec(cs, c, 6) {
        Some(c + 6)
    } else if digits_at_exec(cs, c, 2) && sep_at_exec(cs, c + 2) && digits_at_exec(cs, c + 3, 2)
        && sep_at_exec(cs, c + 5) && digits_at_exec(cs, c + 6, 2) {
        Some(c + 8)
    } else {
        None
    }
}

fn normal_end_exec(cs: &Vec<char>, p: usize) -> (r: Option<usize>)
    requires
        p <= cs.len(),
    ensures
        normal_end(cs@, p as int) == (match r {
            Some(e) => Some(e as int),
            None => None,
        }),
{
    if !digits_at_exec(cs, p, 4) || cs[p] != '2' || cs[p + 1] != '0' {
        return None;
    }
    let a = after_sep_exec(cs, p + 4);
    if !digits_at_exec(cs, a, 2) {
        return None;
    }
    let b = after_sep_exec(cs, a + 2);
    if !digits_at_exec(cs, b, 2) {
        return None;
    }
    let c = after_sep_exec(cs, b + 2);
    time_end_exec(cs, c)
}

fn messaging_at_exec(cs: &Vec<char>, p: usize) -> (r: bool)
    requires
        p <= cs.len(),
    ensures
        r == messaging_at(cs@, p as int),
{
    digits_at_exec(cs, p, 8) && cs[p] == '2' && cs[p + 1] == '0' && char_at_exec(cs, p + 8, '-')
        && char_at_exec(cs, p + 9, 'W') && char_at_exec(cs, p + 10, 'A')
}

/// Extracts the span of `text` that holds a date and time.
///
/// The first candidate is the leftmost year `20YY`, month and day, each
/// optionally separated by `-` or `_`, followed by a time of day; failing
/// that, the rightmost eight-digit date directly followed by `-WA`.
pub fn extract_date_with_regex(text: &str) -> (r: Option<String>)
    ensures
        opt_view(r) == extracted(text@),
{
    let cs = chars_of(text);
    let n = cs.len();
    let ghost s = cs@;
    let ghost normal = starts_normal(s);
    let ghost messaging = starts_messaging(s);
    let mut i: usize = 0;
    while i < n
        invariant
            i <= n,
            n == s.len(),
            s == cs@,
            s == text@,
            normal == starts_normal(s),
            forall|k: int| 0 <= k < i ==> !#[trigger] normal(k),
        decreases n - i,
    {
        if let Some(e) = normal_end_exec(&cs, i) {
            proof {
                lemma_first_where_skip(0, i as int, n as int, normal);
                lemma_first_where_found(i as int, n as int, normal);
            }
            return Some(part(text, i, e));
        }
        i = i + 1;
    }
    proof {
        lemma_first_where_skip(0, n as int, n as int, normal);
    }
    let mut j: usize = n;
    while j > 0
        invariant
            j <= n,
            n == s.len(),
            s == cs@,
            s == text@,
            normal_start(s) is None,
            messaging == starts_messaging(s),
            forall|k: int| j <= k < n ==> !#[trigger] messaging(k),
        decreases j,
    {
        if messaging_at_exec(&cs, j - 1) {
            proof {
                lemma_last_where_skip(j as int, n as int, messaging);
            }
            return Some(part(text, j - 1, j + 7));
        }
        j = j - 1;
    }
    proof {
        lemma_last_where_skip(0, n as int, messaging);
    }
    None
}

} // verus!

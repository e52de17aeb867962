//! Turning an extracted span into a canonical date and time of day.
use vstd::prelude::*;
use crate::search::{last_where, lemma_last_where_skip};
use crate::text::{char_at, char_at_exec, chars_of, digits_at, digits_at_exec, is_digit, is_word, opt_view, part, glue, word};

verus! {

/// `s` with every `_` replaced by `-`.
pub open spec fn dashed(s: Seq<char>) -> Seq<char> {
    s.map_values(|c: char| if c == '_' { '-' } else { c })
}

/// A word boundary lies just before the digit at `p`.
pub open spec fn bounded_before(t: Seq<char>, p: int) -> bool {
    p == 0 || (0 < p <= t.len() && !is_word(t[p - 1]))
}

/// A word boundary lies just after the digit before `e`.
pub open spec fn bounded_after(t: Seq<char>, e: int) -> bool {
    e == t.len() || (0 <= e < t.len() && !is_word(t[e]))
}

/// Eight date digits and six time digits in one run at `p`, a word boundary
/// before them, and `t` ending in a word character.
pub open spec fn joined_at(t: Seq<char>, p: int) -> bool {
    bounded_before(t, p) && digits_at(t, p, 14) && is_word(t.last())
}

/// The position after an optional `-` at `i`.
pub open spec fn after_dash(t: Seq<char>, i: int) -> int {
    if char_at(t, i, '-') {
        i + 1
    } else {
        i
    }
}

pub open spec fn hour_at(t: Seq<char>, p: int) -> int {
    after_dash(t, p + 10)
}

pub open spec fn minute_at(t: Seq<char>, p: int) -> int {
    after_dash(t, hour_at(t, p) + 2)
}

pub open spec fn second_at(t: Seq<char>, p: int) -> int {
    after_dash(t, minute_at(t, p) + 2)
}

/// A `YYYY-MM-DD` date at `p`, then an optional `-` and a time of day as
/// three pairs of digits, each pair optionally preceded by `-`.
pub open spec fn loose_at(t: Seq<char>, p: int) -> bool {
    &&& digits_at(t, p, 4)
    &&& char_at(t, p + 4, '-')
    &&& digits_at(t, p + 5, 2)
    &&& char_at(t, p + 7, '-')
    &&& digits_at(t, p + 8, 2)
    &&& digits_at(t, hour_at(t, p), 2)
    &&& digits_at(t, minute_at(t, p), 2)
    &&& digits_at(t, second_at(t, p), 2)
}

/// A run of exactly `n` digits at `p`, with word boundaries on both sides.
pub open spec fn run_at(t: Seq<char>, p: int, n: int) -> bool {
    bounded_before(t, p) && digits_at(t, p, n) && bounded_after(t, p + n)
}

pub open spec fn joined_pred(t: Seq<char>) -> spec_fn(int) -> bool {
    |p: int| joined_at(t, p)
}

pub open spec fn loose_pred(t: Seq<char>) -> spec_fn(int) -> bool {
    |p: int| loose_at(t, p)
}

pub open spec fn run_pred(t: Seq<char>, n: int) -> spec_fn(int) -> bool {
    |p: int| run_at(t, p, n)
}

/// Eight digits `YYYYMMDD` written as `YYYY-MM-DD`.
pub open spec fn split_date(d: Seq<char>) -> Seq<char> {
    d.subrange(0, 4) + seq!['-'] + d.subrange(4, 6) + seq!['-'] + d.subrange(6, 8)
}

/// Six digits `HHMMSS` written as `HH:MM:SS`.
pub open spec fn split_time(d: Seq<char>) -> Seq<char> {
    d.subrange(0, 2) + seq![':'] + d.subrange(2, 4) + seq![':'] + d.subrange(4, 6)
}

/// The digits of the time of day in a loose match at `p`.
pub open spec fn loose_time_digits(t: Seq<char>, p: int) -> Seq<char> {
    let (h, m, s) = (hour_at(t, p), minute_at(t, p), second_at(t, p));
    t.subrange(h, h + 2) + t.subrange(m, m + 2) + t.subrange(s, s + 2)
}

/// The canonical date and time of day of an extracted span `s`, in this
/// order of preference, over `s` with `_` read as `-`: the rightmost joined
/// fourteen-digit date and time; else the rightmost loose `YYYY-MM-DD` date
/// and time; else, each on its own, the rightmost eight-digit date and the
/// rightmost six-digit time.
pub open spec fn date_time_parts(s: Seq<char>) -> (Option<Seq<char>>, Option<Seq<char>>) {
    let t = dashed(s);
    let n = t.len() as int;
    match last_where(n, joined_pred(t)) {
        Some(p) => (
            Some(split_date(t.subrange(p, p + 8))),
            Some(split_time(t.subrange(p + 8, p + 14))),
        ),
        None => match last_where(n, loose_pred(t)) {
            Some(p) => (Some(t.subrange(p, p + 10)), Some(split_time(loose_time_digits(t, p)))),
            None => (
                match last_where(n, run_pred(t, 8)) {
                    Some(p) => Some(split_date(t.subrange(p, p + 8))),
                    None => None,
                },
                match last_where(n, run_pred(t, 6)) {
                    Some(p) => Some(split_time(t.subrange(p, p + 6))),
                    None => None,
                },
            ),
        },
    }
}

/// Where the dashed form of `s` holds digits, it agrees with `s`.
proof fn lemma_digits_agree(s: Seq<char>, i: int, n: int)
    requires
        0 <= n,
        digits_at(dashed(s), i, n),
    ensures
        s.subrange(i, i + n) == dashed(s).subrange(i, i + n),
{
    assert forall|k: int| i <= k < i + n implies #[trigger] s[k] == dashed(s)[k] by {
        assert(is_digit(dashed(s)[k]));
    }
    assert(dashed(s).len() == s.len());
    assert(s.subrange(i, i + n) =~= dashed(s).subrange(i, i + n));
}

fn dashed_chars(s: &str) -> (r: Vec<char>)
    ensures
        r@ == dashed(s@),
{
    let cs = chars_of(s);
    let mut r: Vec<char> = Vec::new();
    let mut i: usize = 0;
    while i < cs.len()
        invariant
            i <= cs@.len(),
            cs@ == s@,
            r@ == dashed(s@).subrange(0, i as int),
        decreases cs@.len() - i,
    {
        let c = cs[i];
        r.push(if c == '_' { '-' } else { c });
        i = i + 1;
        proof {
            assert(r@ =~= dashed(s@).subrange(0, i as int));
        }
    }
    proof {
        assert(r@ =~= dashed(s@));
    }
    r
}

/// Eight digits of `s` at `p`, written as a date.
fn date_text(s: &str, p: usize) -> (r: String)
    requires
        digits_at(dashed(s@), p as int, 8),
        s@.len() <= usize::MAX,
    ensures
        r@ == split_date(dashed(s@).subrange(p as int, p + 8)),
{
    proof {
        lemma_digits_agree(s@, p as int, 8);
        reveal_strlit("-");
    }
    let r = glue(part(s, p, p + 4), "-", part(s, p + 4, p + 6), part(s, p + 6, p + 8));
    assert(r@ =~= split_date(dashed(s@).subrange(p as int, p + 8)));
    r
}

/// Three pairs of digits of `s`, at `a`, `b` and `c`, written as a time of day.
fn time_text(s: &str, a: usize, b: usize, c: usize) -> (r: String)
    requires
        digits_at(dashed(s@), a as int, 2),
        digits_at(dashed(s@), b as int, 2),
        digits_at(dashed(s@), c as int, 2),
        s@.len() <= usize::MAX,
    ensures
        r@ == split_time(
            dashed(s@).subrange(a as int, a + 2) + dashed(s@).subrange(b as int, b + 2)
                + dashed(s@).subrange(c as int, c + 2),
        ),
{
    proof {
        lemma_digits_agree(s@, a as int, 2);
        lemma_digits_agree(s@, b as int, 2);
        lemma_digits_agree(s@, c as int, 2);
        reveal_strlit(":");
    }
    let r = glue(part(s, a, a + 2), ":", part(s, b, b + 2), part(s, c, c + 2));
    assert(r@ =~= split_time(
        dashed(s@).subrange(a as int, a + 2) + dashed(s@).subrange(b as int, b + 2)
            + dashed(s@).subrange(c as int, c + 2),
    ));
    r
}

/// Six digits of `s` at `p`, written as a time of day.
fn run_time_text(s: &str, p: usize) -> (r: String)
    requires
        digits_at(dashed(s@), p as int, 6),
        s@.len() <= usize::MAX,
    ensures
        r@ == split_time(dashed(s@).subrange(p as int, p + 6)),
{
    let ghost t = dashed(s@);
    assert(digits_at(t, p + 2, 2) && digits_at(t, p + 4, 2) && digits_at(t, p as int, 2));
    let r = time_text(s, p, p + 2, p + 4);
    assert(t.subrange(p as int, p + 2) + t.subrange(p + 2, p + 4) + t.subrange(p + 4, p + 6)
        =~= t.subrange(p as int, p + 6));
    r
}

fn bounded_before_exec(t: &Vec<char>, p: usize) -> (r: bool)
    requires
        p <= t@.len(),
    ensures
        r == bounded_before(t@, p as int),
{
    p == 0 || !word(t[p - 1])
}

fn run_at_exec(t: &Vec<char>, p: usize, n: usize) -> (r: bool)
    requires
        p <= t.len(),
    ensures
        r == run_at(t@, p as int, n as int),
{
    if !bounded_before_exec(t, p) || !digits_at_exec(t, p, n) {
        return false;
    }
    p + n == t.len() || !word(t[p + n])
}

fn joined_at_exec(t: &Vec<char>, p: usize) -> (r: bool)
    requires
        p <= t@.len(),
    ensures
        r == joined_at(t@, p as int),
{
    bounded_before_exec(t, p) && digits_at_exec(t, p, 14) && word(t[t.len() - 1])
}

fn after_dash_exec(t: &Vec<char>, i: usize) -> (r: usize)
    requires
        i <= t.len(),
    ensures
        r == after_dash(t@, i as int),
        r <= t@.len(),
{
    if char_at_exec(t, i, '-') {
        i + 1
    } else {
        i
    }
}

/// The positions of hours, minutes and seconds of a loose match at `p`.
fn loose_at_exec(t: &Vec<char>, p: usize) -> (r: Option<(usize, usize, usize)>)
    requires
        p <= t.len(),
    ensures
        r is Some == loose_at(t@, p as int),
        r matches Some(q) ==> q.0 == hour_at(t@, p as int) && q.1 == minute_at(t@, p as int)
            && q.2 == second_at(t@, p as int),
{
    if !(digits_at_exec(t, p, 4) && char_at_exec(t, p + 4, '-') && digits_at_exec(t, p + 5, 2)
        && char_at_exec(t, p + 7, '-') && digits_at_exec(t, p + 8, 2)) {
        return None;
    }
    let h = after_dash_exec(t, p + 10);
    if !digits_at_exec(t, h, 2) {
        return None;
    }
    let m = after_dash_exec(t, h + 2);
    if !digits_at_exec(t, m, 2) {
        return None;
    }
    let s = after_dash_exec(t, m + 2);
    if !digits_at_exec(t, s, 2) {
        return None;
    }
    Some((h, m, s))
}

/// The rightmost run of exactly `n` digits bounded by non-word characters.
fn last_run(t: &Vec<char>, n: usize) -> (r: Option<usize>)
    ensures
        last_where(t@.len() as int, run_pred(t@, n as int)) == (match r {
            Some(p) => Some(p as int),
            None => None,
        }),
{
    let ghost pred = run_pred(t@, n as int);
    let mut j: usize = t.len();
    while j > 0
        invariant
            j <= t@.len(),
            pred == run_pred(t@, n as int),
            forall|k: int| j <= k < t@.len() ==> !#[trigger] pred(k),
        decreases j,
    {
        if run_at_exec(t, j - 1, n) {
            proof {
                lemma_last_where_skip(j as int, t@.len() as int, pred);
            }
            return Some(j - 1);
        }
        j = j - 1;
    }
    proof {
        lemma_last_where_skip(0, t@.len() as int, pred);
    }
    None
}

/// Splits an extracted span into a canonical `YYYY-MM-DD` date and a
/// canonical `HH:MM:SS` time of day, each present only when found.
pub fn get_date_time_parts(input: &str) -> (r: (Option<String>, Option<String>))
    ensures
        (opt_view(r.0), opt_view(r.1)) == date_time_parts(input@),
{
    let t = dashed_chars(input);
    let n = t.len();
    let ghost tv = t@;
    let ghost joined = joined_pred(tv);
    let ghost loose = loose_pred(tv);
    let mut j: usize = n;
    while j > 0
        invariant
            j <= n,
            n == tv.len(),
            tv == t@,
            tv == dashed(input@),
            joined == joined_pred(tv),
            forall|k: int| j <= k < n ==> !#[trigger] joined(k),
        decreases j,
    {
        if joined_at_exec(&t, j - 1) {
            proof {
                lemma_last_where_skip(j as int, n as int, joined);
            }
            let p = j - 1;
            let date = date_text(input, p);
            let time = run_time_text(input, p + 8);
            return (Some(date), Some(time));
        }
        j = j - 1;
    }
    proof {
        lemma_last_where_skip(0, n as int, joined);
    }
    let mut j: usize = n;
    while j > 0
        invariant
            j <= n,
            n == tv.len(),
            tv == t@,
            tv == dashed(input@),
            last_where(n as int, joined_pred(tv)) is None,
            loose == loose_pred(tv),
            forall|k: int| j <= k < n ==> !#[trigger] loose(k),
        decreases j,
    {
        if let Some((h, m, s)) = loose_at_exec(&t, j - 1) {
            proof {
                lemma_last_where_skip(j as int, n as int, loose);
                reveal_strlit("-");
            }
            let p = j - 1;
            let date = glue(part(input, p, p + 4), "-", part(input, p + 5, p + 7), part(input, p + 8, p + 10));
            proof {
                lemma_digits_agree(input@, p as int, 4);
                lemma_digits_agree(input@, p + 5, 2);
                lemma_digits_agree(input@, p + 8, 2);
                assert(date@ =~= tv.subrange(p as int, p + 10));
            }
            let time = time_text(input, h, m, s);
            return (Some(date), Some(time));
        }
        j = j - 1;
    }
    proof {
        lemma_last_where_skip(0, n as int, loose);
    }
    let date = match last_run(&t, 8) {
        Some(p) => {
            proof {
                crate::search::lemma_last_where_found(n as int, run_pred(tv, 8));
            }
            Some(date_text(input, p))
        },
        None => None,
    };
    let time = match last_run(&t, 6) {
        Some(p) => {
            proof {
                crate::search::lemma_last_where_found(n as int, run_pred(tv, 6));
            }
            Some(run_time_text(input, p))
        },
        None => None,
    };
    (date, time)
}

} // verus!

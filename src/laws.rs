//! Laws that relate the steps from a filename to the text handed to the
//! date parser, and the planning of metadata writes.
use vstd::prelude::*;
use crate::dispatch::{all_dates_arg, command_of, dispatch_of, Dispatch};
use crate::timestamp::{clock_text, rfc3339_text, spells, two_digits, Timestamp};
use crate::extract::{
    after_sep, extracted, messaging_at, normal_end, normal_start, starts_messaging, starts_normal,
};
use crate::normalize::{
    dashed, date_time_parts, joined_pred, loose_at, loose_pred, run_pred, split_date, split_time,
};
use crate::resolve::{default_time, parse_input, resolution_of, text_to_parse, Error};
use crate::search::{last_where, lemma_first_where_skip, lemma_last_where_skip};
use crate::text::{digits_at, is_digit, is_sep};

verus! {

/// `20YYMMDDhhmmss`: fourteen digits, the year beginning with `20`.
pub open spec fn joined_span(x: Seq<char>) -> bool {
    x.len() == 14 && digits_at(x, 0, 14) && x[0] == '2' && x[1] == '0'
}

/// `20YY-MM-DD`, an optional separator and `hhmmss`, where each separator is
/// `-` or `_`.
pub open spec fn separated_span(x: Seq<char>) -> bool {
    &&& x.len() == 16 || x.len() == 17
    &&& digits_at(x, 0, 4)
    &&& x[0] == '2'
    &&& x[1] == '0'
    &&& is_sep(x[4])
    &&& digits_at(x, 5, 2)
    &&& is_sep(x[7])
    &&& digits_at(x, 8, 2)
    &&& x.len() == 17 ==> is_sep(x[10])
    &&& digits_at(x, x.len() - 6, 6)
}

/// `YYYY-MM-DD hh:mm:ss`, from the digits of `x` at the given positions.
pub open spec fn wall_clock_text(x: Seq<char>, y: int, mo: int, d: int, h: int, mi: int, s: int) -> Seq<char> {
    x.subrange(y, y + 4) + seq!['-'] + x.subrange(mo, mo + 2) + seq!['-'] + x.subrange(d, d + 2)
        + " "@ + x.subrange(h, h + 2) + seq![':'] + x.subrange(mi, mi + 2) + seq![':']
        + x.subrange(s, s + 2)
}

/// The date and time of day that a well-formed span spells.
pub open spec fn spelled_text(x: Seq<char>) -> Seq<char> {
    if x.len() == 14 {
        wall_clock_text(x, 0, 4, 6, 8, 10, 12)
    } else {
        wall_clock_text(x, 0, 5, 8, x.len() - 6, x.len() - 4, x.len() - 2)
    }
}

proof fn lemma_dashed_digits(x: Seq<char>)
    ensures
        dashed(x).len() == x.len(),
        forall|k: int| 0 <= k < x.len() && is_digit(x[k]) ==> #[trigger] dashed(x)[k] == x[k],
        forall|k: int| 0 <= k < x.len() && is_sep(x[k]) ==> #[trigger] dashed(x)[k] == '-',
{
}

/// A joined span resolves to the date and time that its digits spell.
proof fn lemma_joined_parts(x: Seq<char>)
    requires
        joined_span(x),
    ensures
        text_to_parse(date_time_parts(x), x) == spelled_text(x),
{
    lemma_dashed_digits(x);
    let t = dashed(x);
    assert(t =~= x) by {
        assert forall|k: int| 0 <= k < 14 implies t[k] == x[k] by {
            assert(is_digit(x[k]));
        }
    }
    assert forall|k: int| 0 <= k < 14 implies !#[trigger] joined_pred(t)(k) || k == 0 by {
        if k > 0 {
            assert(is_digit(t[k - 1]));
        }
    }
    assert(joined_pred(t)(0)) by {
        assert(is_digit(t[13]));
    }
    lemma_last_where_skip(1, 14, joined_pred(t));
    assert(last_where(14, joined_pred(t)) == Some(0int));
    assert(text_to_parse(date_time_parts(x), x) =~= spelled_text(x));
}

/// A separated span resolves to the date and time that its digits spell.
proof fn lemma_separated_parts(x: Seq<char>)
    requires
        separated_span(x),
    ensures
        text_to_parse(date_time_parts(x), x) == spelled_text(x),
{
    lemma_dashed_digits(x);
    let t = dashed(x);
    let n = x.len() as int;
    assert(t[4] == '-' && t[7] == '-');
    assert(forall|k: int| 0 <= k < n && k != 4 && k != 7 && k != 10 ==> is_digit(#[trigger] t[k])) by {
        assert forall|k: int| 0 <= k < n && k != 4 && k != 7 && k != 10 implies is_digit(#[trigger] t[k]) by {
            if k < 4 {
                assert(is_digit(x[k]));
            } else if k < 7 {
                assert(is_digit(x[k]));
            } else if k < 10 {
                assert(is_digit(x[k]));
            } else {
                assert(is_digit(x[k]));
            }
        }
    }
    assert forall|k: int| 0 <= k < n implies !#[trigger] joined_pred(t)(k) by {
        assert(t[4] == '-');
    }
    lemma_last_where_skip(0, n, joined_pred(t));
    assert forall|k: int| 0 < k < n implies !#[trigger] loose_pred(t)(k) by {
        if loose_at(t, k) {
            assert(t[k + 4] == '-');
            assert(is_digit(t[k]) && is_digit(t[k + 1]) && is_digit(t[k + 2]) && is_digit(t[k + 3]));
        }
    }
    assert(loose_pred(t)(0));
    lemma_last_where_skip(1, n, loose_pred(t));
    assert(last_where(n, loose_pred(t)) == Some(0int));
    assert(text_to_parse(date_time_parts(x), x) =~= spelled_text(x));
}

/// Where no date and time starts earlier in a filename, a well-formed span
/// `20YYMMDDhhmmss` or `20YY-MM-DD[-]hhmmss` in it is extracted exactly,
/// and the parser is handed `YYYY-MM-DD hh:mm:ss` with the span's digits.
pub proof fn lemma_well_formed_span_resolves(pre: Seq<char>, span: Seq<char>, post: Seq<char>)
    requires
        joined_span(span) || separated_span(span),
        forall|k: int| 0 <= k < pre.len() ==> normal_end(#[trigger] (pre + span + post), k) is None,
    ensures
        extracted(pre + span + post) == Some(span),
        parse_input(pre + span + post) == Some(spelled_text(span)),
        clock_text(spelled_text(span)),
{
    lemma_spelled_is_clock(span);
    let s = pre + span + post;
    let p = pre.len() as int;
    let e = p + span.len();
    assert forall|k: int| 0 <= k < span.len() implies #[trigger] s[p + k] == span[k] by {}
    assert(s.subrange(p, e) =~= span);
    assert(normal_end(s, p) == Some(e)) by {
        assert(is_digit(span[4]) ==> joined_span(span));
        if joined_span(span) {
            assert(is_digit(span[4]) && is_digit(span[7]) && is_digit(span[10]));
        } else {
            if span.len() == 16 {
                assert(is_digit(span[10]));
            }
        }
    }
    assert forall|k: int| 0 <= k < p implies !#[trigger] starts_normal(s)(k) by {
        assert(normal_end(s, k) is None);
    }
    lemma_first_where_skip(0, p, s.len() as int, starts_normal(s));
    assert(normal_start(s) == Some(p));
    if joined_span(span) {
        lemma_joined_parts(span);
    } else {
        lemma_separated_parts(span);
    }
}

/// `x` holds no digit.
pub open spec fn digit_free(x: Seq<char>) -> bool {
    forall|k: int| 0 <= k < x.len() ==> !is_digit(#[trigger] x[k])
}

/// `x` has digits exactly in the runs `[0, a)`, `[a + 1, b)`, `[b + 1, c)`
/// and `[c + 1, x.len())`, and the three characters between them satisfy
/// `gap`.
pub open spec fn four_runs(x: Seq<char>, a: int, b: int, c: int, gap: spec_fn(char) -> bool) -> bool {
    &&& 0 < a && a + 1 < b && b + 1 < c && c + 1 < x.len()
    &&& forall|k: int| 0 <= k < x.len() && k != a && k != b && k != c ==> is_digit(#[trigger] x[k])
    &&& !is_digit(x[a]) && !is_digit(x[b]) && !is_digit(x[c])
    &&& gap(x[a]) && gap(x[b]) && gap(x[c])
}

/// A date and time whose year has three digits: `YYY-MM-DD-hhmmss`.
pub open spec fn short_year_span(x: Seq<char>) -> bool {
    x.len() == 16 && four_runs(x, 3, 6, 9, |c: char| is_sep(c))
}

/// A date and time whose month, day or both have one digit:
/// `YYYY-M-DD-hhmmss`, `YYYY-MM-D-hhmmss` or `YYYY-M-D-hhmmss`.
pub open spec fn unpadded_span(x: Seq<char>) -> bool {
    ||| x.len() == 16 && four_runs(x, 4, 6, 9, |c: char| is_sep(c))
    ||| x.len() == 16 && four_runs(x, 4, 7, 9, |c: char| is_sep(c))
    ||| x.len() == 15 && four_runs(x, 4, 6, 8, |c: char| is_sep(c))
}

/// `YYYY:MM:DD:hh:mm:ss`: six pairs of digits, the first a four-digit
/// year, with a colon between each.
pub open spec fn colon_clock_span(x: Seq<char>) -> bool {
    &&& x.len() == 19
    &&& forall|k: int| 0 <= k < 19 && k != 4 && k != 7 && k != 10 && k != 13 && k != 16 ==> is_digit(#[trigger] x[k])
    &&& x[4] == ':' && x[7] == ':' && x[10] == ':' && x[13] == ':' && x[16] == ':'
}

/// A date and time separated by colons: `YYYY:MM:DD:hhmmss` or
/// `YYYY:MM:DD:hh:mm:ss`.
pub open spec fn colon_span(x: Seq<char>) -> bool {
    (x.len() == 17 && four_runs(x, 4, 7, 10, |c: char| c == ':')) || colon_clock_span(x)
}

/// A filename whose only digits form a date and time with a three-digit
/// year, a month, a day or both of one digit, or colons between its components
/// yields nothing.
pub proof fn lemma_malformed_span_yields_nothing(pre: Seq<char>, bad: Seq<char>, post: Seq<char>)
    requires
        digit_free(pre),
        digit_free(post),
        short_year_span(bad) || unpadded_span(bad) || colon_span(bad),
    ensures
        extracted(pre + bad + post) is None,
{
    let s = pre + bad + post;
    let o = pre.len() as int;
    let m = bad.len() as int;
    assert forall|k: int| 0 <= k < s.len() && is_digit(#[trigger] s[k]) implies o <= k < o + m
        && is_digit(bad[k - o]) by {
        if k < o {
            assert(s[k] == pre[k]);
        } else if k >= o + m {
            assert(s[k] == post[k - o - m]);
        }
    }
    assert forall|p: int| 0 <= p < s.len() implies !#[trigger] starts_normal(s)(p) by {
        if normal_end(s, p) is Some {
            assert(is_digit(s[p]) && is_digit(s[p + 1]) && is_digit(s[p + 2]) && is_digit(s[p + 3]));
            let a = after_sep(s, p + 4);
            let b = after_sep(s, a + 2);
            let c = after_sep(s, b + 2);
            assert(is_digit(s[a]) && is_digit(s[a + 1]) && is_digit(s[b]) && is_digit(s[b + 1]));
            assert(is_digit(s[c]) && is_digit(s[c + 1]));
            assert(is_digit(s[c + 4]) || is_digit(s[c + 6]));
        }
    }
    lemma_first_where_skip(0, s.len() as int, s.len() as int, starts_normal(s));
    assert forall|p: int| 0 <= p < s.len() implies !#[trigger] starts_messaging(s)(p) by {
        if messaging_at(s, p) {
            assert(is_digit(s[p]) && is_digit(s[p + 7]));
            assert(is_digit(s[p + 1]) && is_digit(s[p + 2]) && is_digit(s[p + 3]));
            assert(is_digit(s[p + 4]) && is_digit(s[p + 5]) && is_digit(s[p + 6]));
        }
    }
    lemma_last_where_skip(0, s.len() as int, starts_messaging(s));
}

/// The text spelled by a well-formed span is `YYYY-MM-DD hh:mm:ss`, and
/// its seconds are the span's last two digits.
proof fn lemma_spelled_is_clock(x: Seq<char>)
    requires
        joined_span(x) || separated_span(x),
    ensures
        clock_text(spelled_text(x)),
        two_digits(spelled_text(x), 17) == two_digits(x, x.len() - 2),
{
    reveal_strlit(" ");
    let t = spelled_text(x);
    let n = x.len() as int;
    if joined_span(x) {
        assert(t.len() == 19);
        assert(forall|k: int| 0 <= k < 4 ==> t[k] == x[k]);
        assert(forall|k: int| 5 <= k < 7 ==> t[k] == x[k - 1]);
        assert(forall|k: int| 8 <= k < 10 ==> t[k] == x[k - 2]);
        assert(forall|k: int| 11 <= k < 13 ==> t[k] == x[k - 3]);
        assert(forall|k: int| 14 <= k < 16 ==> t[k] == x[k - 4]);
        assert(forall|k: int| 17 <= k < 19 ==> t[k] == x[k - 5]);
    } else {
        assert(t.len() == 19);
        assert(forall|k: int| 0 <= k < 4 ==> t[k] == x[k]);
        assert(forall|k: int| 5 <= k < 7 ==> t[k] == x[k]);
        assert(forall|k: int| 8 <= k < 10 ==> t[k] == x[k]);
        assert(forall|k: int| 11 <= k < 13 ==> t[k] == x[n - 6 + k - 11]);
        assert(forall|k: int| 14 <= k < 16 ==> t[k] == x[n - 4 + k - 14]);
        assert(forall|k: int| 17 <= k < 19 ==> t[k] == x[n - 2 + k - 17]);
    }
}

/// Where no date and time starts earlier in a filename, a successful
/// resolution of a well-formed span in it carries the calendar date and
/// time of day that the span's digits spell (a leap second aside).
pub proof fn lemma_well_formed_span_keeps_wall_clock(
    pre: Seq<char>,
    span: Seq<char>,
    post: Seq<char>,
    r: Result<Timestamp, Error>,
)
    requires
        joined_span(span) || separated_span(span),
        forall|k: int| 0 <= k < pre.len() ==> normal_end(#[trigger] (pre + span + post), k) is None,
        two_digits(span, span.len() - 2) < 60,
        resolution_of(pre + span + post, r),
    ensures
        r matches Ok(t) ==> spells(spelled_text(span), t),
{
    lemma_well_formed_span_resolves(pre, span, post);
    lemma_spelled_is_clock(span);
}

/// The text handed to the parser for a messaging-app date `d`: the date at
/// midnight.
pub open spec fn midnight_text(d: Seq<char>) -> Seq<char> {
    split_date(d) + " "@ + default_time()
}

/// A filename without a date and time whose last messaging-app date starts
/// at `p` hands the parser that date at midnight, and a successful
/// resolution carries that date and the time 00:00:00.
pub proof fn lemma_messaging_name_resolves_to_midnight(
    s: Seq<char>,
    p: int,
    r: Result<Timestamp, Error>,
)
    requires
        forall|k: int| 0 <= k < s.len() ==> normal_end(s, k) is None,
        messaging_at(s, p),
        forall|k: int| p < k < s.len() ==> !messaging_at(s, k),
        resolution_of(s, r),
    ensures
        parse_input(s) == Some(midnight_text(s.subrange(p, p + 8))),
        r matches Ok(t) ==> spells(midnight_text(s.subrange(p, p + 8)), t) && t.hour == 0
            && t.minute == 0 && t.second == 0,
{
    reveal_strlit(" ");
    reveal_strlit("00:00:00");
    let n = s.len() as int;
    assert forall|k: int| 0 <= k < n implies !#[trigger] starts_normal(s)(k) by {}
    lemma_first_where_skip(0, n, n, starts_normal(s));
    assert forall|k: int| p + 1 <= k < n implies !#[trigger] starts_messaging(s)(k) by {}
    lemma_last_where_skip(p + 1, n, starts_messaging(s));
    assert(starts_messaging(s)(p));
    assert(extracted(s) == Some(s.subrange(p, p + 8)));
    let d = s.subrange(p, p + 8);
    lemma_dashed_digits(d);
    let t = dashed(d);
    assert(forall|k: int| 0 <= k < 8 ==> is_digit(#[trigger] t[k]));
    assert forall|k: int| 0 <= k < 8 implies !#[trigger] joined_pred(t)(k) by {}
    lemma_last_where_skip(0, 8, joined_pred(t));
    assert forall|k: int| 0 <= k < 8 implies !#[trigger] loose_pred(t)(k) by {
        assert(is_digit(t[4]));
    }
    lemma_last_where_skip(0, 8, loose_pred(t));
    assert forall|k: int| 1 <= k < 8 implies !#[trigger] run_pred(t, 8)(k) by {
        assert(is_digit(t[k - 1]));
    }
    lemma_last_where_skip(1, 8, run_pred(t, 8));
    assert(run_pred(t, 8)(0));
    assert forall|k: int| 0 <= k < 8 implies !#[trigger] run_pred(t, 6)(k) by {
        if k > 0 {
            assert(is_digit(t[k - 1]));
        } else {
            assert(is_digit(t[6]));
        }
    }
    lemma_last_where_skip(0, 8, run_pred(t, 6));
    assert(t =~= d) by {
        assert forall|k: int| 0 <= k < 8 implies t[k] == d[k] by {
            assert(is_digit(d[k]));
        }
    }
    let m = midnight_text(d);
    assert(text_to_parse(date_time_parts(d), d) == m);
    assert(m.len() == 19);
    assert(forall|k: int| 0 <= k < 4 ==> m[k] == d[k]);
    assert(forall|k: int| 5 <= k < 7 ==> m[k] == d[k - 1]);
    assert(forall|k: int| 8 <= k < 10 ==> m[k] == d[k - 2]);
    assert(forall|k: int| 11 <= k < 19 ==> m[k] == "00:00:00"@[k - 11]);
    assert(clock_text(m));
}

/// Eight date digits, a `-` or `_`, and six time digits split into that
/// date and that time of day, each found on its own.
pub proof fn lemma_date_separator_time_parts(x: Seq<char>)
    requires
        x.len() == 15,
        digits_at(x, 0, 8),
        is_sep(x[8]),
        digits_at(x, 9, 6),
    ensures
        date_time_parts(x) == (
            Some(split_date(x.subrange(0, 8))),
            Some(split_time(x.subrange(9, 15))),
        ),
{
    lemma_dashed_digits(x);
    let t = dashed(x);
    assert(t[8] == '-');
    assert(forall|k: int| 0 <= k < 15 && k != 8 ==> is_digit(#[trigger] t[k])) by {
        assert forall|k: int| 0 <= k < 15 && k != 8 implies is_digit(#[trigger] t[k]) by {
            assert(is_digit(x[k]));
        }
    }
    assert forall|k: int| 0 <= k < 15 implies !#[trigger] joined_pred(t)(k) by {}
    lemma_last_where_skip(0, 15, joined_pred(t));
    assert forall|k: int| 0 <= k < 15 implies !#[trigger] loose_pred(t)(k) by {
        if k + 4 != 8 {
            assert(is_digit(t[k]) ==> k + 4 >= 15 || is_digit(t[k + 4]) || k + 4 == 8);
        }
    }
    lemma_last_where_skip(0, 15, loose_pred(t));
    assert forall|k: int| 1 <= k < 15 implies !#[trigger] run_pred(t, 8)(k) by {
        if k != 9 {
            assert(is_digit(t[k - 1]));
        }
    }
    lemma_last_where_skip(1, 15, run_pred(t, 8));
    assert(run_pred(t, 8)(0));
    assert forall|k: int| 10 <= k < 15 implies !#[trigger] run_pred(t, 6)(k) by {
        assert(is_digit(t[k - 1]));
    }
    lemma_last_where_skip(10, 15, run_pred(t, 6));
    assert(run_pred(t, 6)(9));
    assert(t.subrange(0, 8) =~= x.subrange(0, 8));
    assert(t.subrange(9, 15) =~= x.subrange(9, 15));
}

/// Planning the write of the same point in time into the same file twice
/// gives the same command both times, and that command sets every date
/// outright to the stamp, whatever the file held before: repeating it
/// leaves the same metadata.
pub proof fn lemma_dispatch_repeats(
    first: Dispatch,
    second: Dispatch,
    timestamp: Timestamp,
    path: Seq<char>,
    dryrun: bool,
    overwrite: bool,
)
    requires
        dispatch_of(first, rfc3339_text(timestamp), path, dryrun, overwrite),
        dispatch_of(second, rfc3339_text(timestamp), path, dryrun, overwrite),
    ensures
        first is Show == second is Show,
        command_of(first) == command_of(second),
        command_of(first).contains(all_dates_arg(rfc3339_text(timestamp))),
{
    let c = command_of(first);
    if overwrite {
        assert(c[2] == all_dates_arg(rfc3339_text(timestamp)));
    } else {
        assert(c[1] == all_dates_arg(rfc3339_text(timestamp)));
    }
}

} // verus!

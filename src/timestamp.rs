//! Points in time, held as local wall-clock fields and an offset from UTC.
use vstd::prelude::*;
use crate::text::{char_at, chars_of, digits_at, is_digit};
use chrono::Datelike;
use chrono::Timelike;

verus! {

/// A point in time: the local calendar date and time of day, and the
/// local offset from UTC in seconds.
#[derive(Clone, Copy, Debug, PartialEq, Eq, Structural)]
pub struct Timestamp {
    pub year: i32,
    pub month: u32,
    pub day: u32,
    pub hour: u32,
    pub minute: u32,
    pub second: u32,
    /// Fractions of the second; at or above one second only within a leap second.
    pub nanosecond: u32,
    pub offset_seconds: i32,
}

impl Timestamp {
    /// Each field lies in the range of a calendar date, a time of day and an
    /// offset of less than a day.
    pub open spec fn fields_in_range(&self) -> bool {
        &&& 1 <= self.month <= 12
        &&& 1 <= self.day <= 31
        &&& self.hour < 24
        &&& self.minute < 60
        &&& self.second < 60
        &&& self.nanosecond < 2_000_000_000
        &&& -86_400 < self.offset_seconds < 86_400
    }
}

/// A year of the proleptic Gregorian calendar with a 29th of February.
pub open spec fn is_leap_year(y: int) -> bool {
    y % 4 == 0 && (y % 100 != 0 || y % 400 == 0)
}

/// The number of days of month `m` of year `y`.
pub open spec fn days_in_month(y: int, m: int) -> int {
    if m == 2 {
        if is_leap_year(y) {
            29
        } else {
            28
        }
    } else if m == 4 || m == 6 || m == 9 || m == 11 {
        30
    } else {
        31
    }
}

/// The fields name a real instant: a date that exists, a time of day, a
/// fraction that reaches a second only within a leap second, and a year
/// well inside chrono's range.
pub open spec fn is_instant(t: Timestamp) -> bool {
    &&& t.fields_in_range()
    &&& -262_000 <= t.year <= 262_000
    &&& t.day <= days_in_month(t.year as int, t.month as int)
    &&& (t.nanosecond < 1_000_000_000 || t.second == 59)
}

/// The value of an ASCII digit.
pub open spec fn digit_value(c: char) -> int {
    (c as u32) as int - 48
}

/// The value of the two digits of `s` at `i`.
pub open spec fn two_digits(s: Seq<char>, i: int) -> int {
    digit_value(s[i]) * 10 + digit_value(s[i + 1])
}

/// `s` is `YYYY-MM-DD hh:mm:ss`.
pub open spec fn clock_text(s: Seq<char>) -> bool {
    &&& s.len() == 19
    &&& digits_at(s, 0, 4)
    &&& s[4] == '-'
    &&& digits_at(s, 5, 2)
    &&& s[7] == '-'
    &&& digits_at(s, 8, 2)
    &&& s[10] == ' '
    &&& digits_at(s, 11, 2)
    &&& s[13] == ':'
    &&& digits_at(s, 14, 2)
    &&& s[16] == ':'
    &&& digits_at(s, 17, 2)
}

/// `t` has the wall-clock fields that the `YYYY-MM-DD hh:mm:ss` text `s`
/// spells, and no fraction of a second.
pub open spec fn spells(s: Seq<char>, t: Timestamp) -> bool {
    &&& t.year == two_digits(s, 0) * 100 + two_digits(s, 2)
    &&& t.month == two_digits(s, 5)
    &&& t.day == two_digits(s, 8)
    &&& t.hour == two_digits(s, 11)
    &&& t.minute == two_digits(s, 14)
    &&& t.second == two_digits(s, 17)
    &&& t.nanosecond == 0
}

/// A `+` or `-` at `i`, followed by two digits that make 24 hours or more.
pub open spec fn day_long_offset_at(s: Seq<char>, i: int) -> bool {
    &&& 0 <= i && i + 2 < s.len()
    &&& s[i] == '+' || s[i] == '-'
    &&& is_digit(s[i + 1]) && is_digit(s[i + 2])
    &&& two_digits(s, i + 1) >= 24
}

/// The last three to six characters of `s` begin with an offset of a day
/// or more.
pub open spec fn day_long_offset_tail(s: Seq<char>) -> bool {
    let n = s.len() as int;
    day_long_offset_at(s, n - 3) || day_long_offset_at(s, n - 4) || day_long_offset_at(s, n - 5)
        || day_long_offset_at(s, n - 6)
}

/// An ASCII letter.
pub open spec fn is_letter(c: char) -> bool {
    ('a' <= c && c <= 'z') || ('A' <= c && c <= 'Z')
}

/// `s` begins with `YYYY-MM-DD`.
pub open spec fn date_prefix(s: Seq<char>) -> bool {
    digits_at(s, 0, 4) && char_at(s, 4, '-') && digits_at(s, 5, 2) && char_at(s, 7, '-')
        && digits_at(s, 8, 2)
}

/// The date parser reads a trailing UTC offset only from texts with a colon
/// or an ASCII letter, or that begin with `YYYY-MM-DD`.
pub open spec fn may_carry_offset(s: Seq<char>) -> bool {
    (exists|i: int| 0 <= i < s.len() && (#[trigger] s[i] == ':' || is_letter(s[i])))
        || date_prefix(s)
}

/// Texts on which the date parser never reads a UTC offset of a day or more.
pub open spec fn parser_safe(s: Seq<char>) -> bool {
    !day_long_offset_tail(s) || !may_carry_offset(s)
}

/// The RFC 3339 text of a point in time, as chrono writes it.
pub uninterp spec fn rfc3339_text(t: Timestamp) -> Seq<char>;

/// Relies on `dateparser::parse`, which reads a date and time written in one
/// of many common formats (taking the machine's time zone where the text
/// names none), and on chrono's `with_timezone(&Local)`, `Datelike`,
/// `Timelike` and `FixedOffset::local_minus_utc` to read the result as local
/// fields. The parser hands a trailing offset to `FixedOffset::east`,
/// which panics on a day or more: such texts are left out. The outcome
/// depends on the machine's time zone, so in general only the ranges of
/// chrono's fields are promised. A `YYYY-MM-DD hh:mm:ss` text is read by
/// `ymd_hms` as local time, so a success keeps the fields written there
/// (but for a leap second, which chrono holds as second 59).
#[verifier::external_body]
pub(crate) fn parse_local(text: &str) -> (r: Result<Timestamp, String>)
    requires
        parser_safe(text@),
    ensures
        r matches Ok(t) ==> t.fields_in_range(),
        clock_text(text@) && two_digits(text@, 17) < 60 ==> (r matches Ok(t) ==> spells(text@, t)),
{
    let t = match dateparser::parse(text) {
        Ok(utc) => utc.with_timezone(&chrono::Local),
        Err(e) => return Err(e.to_string()),
    };
    Ok(Timestamp {
        year: t.year(), month: t.month(), day: t.day(),
        hour: t.hour(), minute: t.minute(), second: t.second(),
        nanosecond: t.nanosecond(), offset_seconds: t.offset().local_minus_utc(),
    })
}

/// Relies on chrono's `DateTime::to_rfc3339`, applied to the instant that
/// `FixedOffset::east_opt`, `NaiveDate::from_ymd_opt`, `and_hms_nano_opt` and
/// `and_local_timezone` build from the fields; `None` where chrono cannot
/// build that instant, which happens only for fields that name none.
#[verifier::external_body]
pub(crate) fn rfc3339_of(t: &Timestamp) -> (r: Option<String>)
    ensures
        r matches Some(x) ==> x@ == rfc3339_text(*t),
        is_instant(*t) ==> r is Some,
{
    let offset = chrono::FixedOffset::east_opt(t.offset_seconds)?;
    let date = chrono::NaiveDate::from_ymd_opt(t.year, t.month, t.day)?;
    let local = date.and_hms_nano_opt(t.hour, t.minute, t.second, t.nanosecond)?;
    Some(local.and_local_timezone(offset).single()?.to_rfc3339())
}

/// Whether the date parser can be handed `text` without reading an offset
/// of a day or more.
pub fn is_parser_safe(text: &str) -> (r: bool)
    ensures
        r == parser_safe(text@),
{
    let cs = chars_of(text);
    let n = cs.len();
    let tail = (n >= 3 && day_long_offset_at_exec(&cs, n - 3))
        || (n >= 4 && day_long_offset_at_exec(&cs, n - 4))
        || (n >= 5 && day_long_offset_at_exec(&cs, n - 5))
        || (n >= 6 && day_long_offset_at_exec(&cs, n - 6));
    assert(tail == day_long_offset_tail(cs@));
    if !tail {
        return true;
    }
    let mut i: usize = 0;
    while i < n
        invariant
            i <= n,
            cs@ == text@,
            n == cs@.len(),
            day_long_offset_tail(cs@),
            forall|j: int| 0 <= j < i ==> !(#[trigger] cs@[j] == ':' || is_letter(cs@[j])),
        decreases n - i,
    {
        let c = cs[i];
        if c == ':' || ('a' <= c && c <= 'z') || ('A' <= c && c <= 'Z') {
            assert(cs@[i as int] == ':' || is_letter(cs@[i as int]));
            assert(may_carry_offset(cs@));
            return false;
        }
        i = i + 1;
    }
    let prefix = crate::text::digits_at_exec(&cs, 0, 4) && crate::text::char_at_exec(&cs, 4, '-')
        && crate::text::digits_at_exec(&cs, 5, 2) && crate::text::char_at_exec(&cs, 7, '-')
        && crate::text::digits_at_exec(&cs, 8, 2);
    !prefix
}

fn day_long_offset_at_exec(cs: &Vec<char>, i: usize) -> (r: bool)
    ensures
        r == day_long_offset_at(cs@, i as int),
{
    let n = cs.len();
    if i >= n || n - i <= 2 {
        return false;
    }
    let (s, a, b) = (cs[i], cs[i + 1], cs[i + 2]);
    if !(s == '+' || s == '-') || !crate::text::digit(a) || !crate::text::digit(b) {
        return false;
    }
    let v = ((a as u32) - 48) * 10 + ((b as u32) - 48);
    v >= 24
}

} // verus!

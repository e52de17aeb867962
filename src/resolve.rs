//! Resolving a filename to a point in time.
use vstd::prelude::*;
use crate::extract::{extract_date_with_regex, extracted};
use crate::normalize::{date_time_parts, get_date_time_parts};
use crate::text::opt_view;
use crate::timestamp::{clock_text, is_parser_safe, parse_local, parser_safe, spells, two_digits, Timestamp};

verus! {

/// What can go wrong while finding the date of a file.
#[derive(Clone, Debug)]
pub enum Error {
    /// The file could not be opened to read its metadata.
    OpenFile(String),
    /// The text found in a filename could not be read as a date.
    DateParse { parsing: String, filename: String, reason: String },
    /// The filename holds nothing that looks like a date.
    NoDate(String),
    /// The date embedded in the metadata could not be read.
    ExtractExifDate(String),
}

/// The time of day taken where only a date is found: midnight.
pub open spec fn default_time() -> Seq<char> {
    "00:00:00"@
}

/// The text handed to the date parser for a date and time of day found in
/// `raw`: both, joined by a space; the date at midnight; else `raw` itself.
pub open spec fn text_to_parse(parts: (Option<Seq<char>>, Option<Seq<char>>), raw: Seq<char>) -> Seq<char> {
    match parts {
        (Some(d), Some(t)) => d + " "@ + t,
        (Some(d), None) => d + " "@ + default_time(),
        (None, _) => raw,
    }
}

/// The text handed to the date parser for a file named `name`, if the name
/// holds a date at all.
pub open spec fn parse_input(name: Seq<char>) -> Option<Seq<char>> {
    match extracted(name) {
        Some(span) => Some(text_to_parse(date_time_parts(span), span)),
        None => None,
    }
}

/// Builds the text handed to the date parser from the parts found in `raw`.
pub fn resolution_text(date: Option<String>, time: Option<String>, raw: &str) -> (r: String)
    ensures
        r@ == text_to_parse((opt_view(date), opt_view(time)), raw@),
{
    match (date, time) {
        (Some(d), Some(t)) => {
            let mut r = d;
            r.append(" ");
            r.append(t.as_str());
            r
        },
        (Some(d), None) => {
            let mut r = d;
            r.append(" ");
            r.append("00:00:00");
            r
        },
        (None, _) => raw.to_owned(),
    }
}

/// The result of resolving a file named `file_name`, once the parser was
/// handed `parsing` and gave `parsed`: its point in time, or a `DateParse`
/// error that carries the text, the file name and the parser's reason.
pub fn date_parse_outcome(parsing: String, file_name: &str, parsed: Result<Timestamp, String>) -> (r: Result<Timestamp, Error>)
    ensures
        match parsed {
            Ok(t) => r == Ok::<Timestamp, Error>(t),
            Err(reason) => r matches Err(Error::DateParse { parsing: p, filename: f, reason: why })
                && p == parsing && f@ == file_name@ && why == reason,
        },
{
    match parsed {
        Ok(t) => Ok(t),
        Err(reason) => Err(Error::DateParse { parsing, filename: file_name.to_owned(), reason }),
    }
}

/// What resolving the file named `file_name` may give: `NoDate` exactly
/// when the name holds no date; otherwise a point in time or a `DateParse`
/// error that carries the text handed to the parser. A text
/// `YYYY-MM-DD hh:mm:ss` (outside a leap second) comes back with its
/// wall-clock fields.
pub open spec fn resolution_of(file_name: Seq<char>, r: Result<Timestamp, Error>) -> bool {
    match parse_input(file_name) {
        None => r matches Err(Error::NoDate(n)) && n@ == file_name,
        Some(text) => match r {
            Ok(t) => t.fields_in_range() && (clock_text(text) && two_digits(text, 17) < 60 ==> spells(text, t)),
            Err(Error::DateParse { parsing, filename, reason: _ }) => parsing@ == text && filename@ == file_name,
            Err(_) => false,
        },
    }
}

/// Finds the point in time that the name of a file tells.
///
/// Without a date in `file_name` the error is `NoDate`; where the parser
/// refuses the text it was handed, `DateParse` with that text. A text from
/// which the parser would read a UTC offset of a day or more is refused as
/// `DateParse` without calling it.
pub fn get_date_from_file(file_name: &str) -> (r: Result<Timestamp, Error>)
    ensures
        resolution_of(file_name@, r),
{
    match extract_date_with_regex(file_name) {
        None => Err(Error::NoDate(file_name.to_owned())),
        Some(span) => {
            let (date, time) = get_date_time_parts(span.as_str());
            let text = resolution_text(date, time, span.as_str());
            if !is_parser_safe(text.as_str()) {
                return Err(Error::DateParse {
                    parsing: text,
                    filename: file_name.to_owned(),
                    reason: "the text ends in a UTC offset of a day or more".to_owned(),
                });
            }
            let parsed = parse_local(text.as_str());
            date_parse_outcome(text, file_name, parsed)
        },
    }
}

/// The embedded date that the parser's result `parsed` gives: its value,
/// or none where the parser refused the text.
pub fn embedded_date_outcome(parsed: Result<Timestamp, String>) -> (r: Option<Timestamp>)
    ensures
        match parsed {
            Ok(t) => r == Some(t),
            Err(_) => r is None,
        },
{
    match parsed {
        Ok(t) => Some(t),
        Err(_) => None,
    }
}

/// Reads the date embedded in a file's metadata, as its text stands there;
/// `None` where the parser refuses it, and, without calling the parser,
/// where the text ends in a UTC offset of a day or more.
pub fn parse_embedded_date(text: &str) -> (r: Option<Timestamp>)
    ensures
        !parser_safe(text@) ==> r is None,
        r matches Some(t) ==> t.fields_in_range(),
        clock_text(text@) && two_digits(text@, 17) < 60 ==> (r matches Some(t) ==> spells(text@, t)),
{
    if !is_parser_safe(text) {
        return None;
    }
    embedded_date_outcome(parse_local(text))
}

} // verus!

//! Planning the external command that writes a date into a file.
use vstd::prelude::*;
use crate::timestamp::{is_instant, rfc3339_of, rfc3339_text, Timestamp};

verus! {

/// What a worker does with one work item.
#[derive(Clone, Debug)]
pub enum Dispatch {
    /// Shows the command line without running it.
    Show(Vec<String>),
    /// Runs the command line.
    Run(Vec<String>),
}

/// The views of a sequence of strings.
pub open spec fn views(v: Seq<String>) -> Seq<Seq<char>> {
    v.map_values(|x: String| x@)
}

/// The argument that sets every date of a file to `stamp`.
pub open spec fn all_dates_arg(stamp: Seq<char>) -> Seq<char> {
    "-AllDates=\""@ + stamp + "\""@
}

/// The command line that writes `stamp` into the file at `path`: the tool,
/// the flag that overwrites in place where `overwrite` is set, the date
/// assignment and the path.
pub open spec fn command_line(stamp: Seq<char>, path: Seq<char>, overwrite: bool) -> Seq<Seq<char>> {
    if overwrite {
        seq!["exiftool"@, "-overwrite_original"@, all_dates_arg(stamp), path]
    } else {
        seq!["exiftool"@, all_dates_arg(stamp), path]
    }
}

/// The command line of a dispatch, as text.
pub open spec fn command_of(d: Dispatch) -> Seq<Seq<char>> {
    match d {
        Dispatch::Show(a) => views(a@),
        Dispatch::Run(a) => views(a@),
    }
}

/// `d` shows the command line in a dry run and runs it otherwise.
pub open spec fn dispatch_of(d: Dispatch, stamp: Seq<char>, path: Seq<char>, dryrun: bool, overwrite: bool) -> bool {
    match d {
        Dispatch::Show(a) => dryrun && views(a@) == command_line(stamp, path, overwrite),
        Dispatch::Run(a) => !dryrun && views(a@) == command_line(stamp, path, overwrite),
    }
}

/// Builds the command line that writes `stamp`, an RFC 3339 text, into the
/// file at `canonical_path`.
pub fn build_command(stamp: &str, canonical_path: &str, overwrite: bool) -> (r: Vec<String>)
    ensures
        views(r@) == command_line(stamp@, canonical_path@, overwrite),
{
    let mut assign = "-AllDates=\"".to_owned();
    assign.append(stamp);
    assign.append("\"");
    let mut r: Vec<String> = Vec::new();
    r.push("exiftool".to_owned());
    if overwrite {
        r.push("-overwrite_original".to_owned());
    }
    r.push(assign);
    r.push(canonical_path.to_owned());
    assert(views(r@) =~= command_line(stamp@, canonical_path@, overwrite));
    r
}

/// Decides what a worker does with the file at `canonical_path` and the
/// RFC 3339 text `stamp`: in a dry run it only shows the command line.
pub fn dispatch_for(stamp: &str, canonical_path: &str, dryrun: bool, overwrite: bool) -> (r: Dispatch)
    ensures
        dispatch_of(r, stamp@, canonical_path@, dryrun, overwrite),
        dryrun ==> r is Show,
{
    let args = build_command(stamp, canonical_path, overwrite);
    if dryrun {
        Dispatch::Show(args)
    } else {
        Dispatch::Run(args)
    }
}

/// Decides what a worker does with a work item whose file lies at
/// `canonical_path`; `None` only where its fields name no instant.
pub fn plan_dispatch(timestamp: &Timestamp, canonical_path: &str, dryrun: bool, overwrite: bool) -> (r: Option<Dispatch>)
    ensures
        r matches Some(d) ==> dispatch_of(d, rfc3339_text(*timestamp), canonical_path@, dryrun, overwrite),
        dryrun ==> !(r matches Some(Dispatch::Run(_))),
        is_instant(*timestamp) ==> r is Some,
{
    match rfc3339_of(timestamp) {
        Some(stamp) => Some(dispatch_for(stamp.as_str(), canonical_path, dryrun, overwrite)),
        None => None,
    }
}

} // verus!

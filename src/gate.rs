//! Deciding, file by file, what becomes of a filename date.
use vstd::prelude::*;
use crate::resolve::{get_date_from_file, parse_input, resolution_of, Error};
use crate::timestamp::Timestamp;

verus! {

/// A file and the point in time to write into its metadata.
#[derive(Clone, Debug)]
pub struct WorkItem {
    pub path: String,
    pub timestamp: Timestamp,
}

/// What becomes of one input file.
#[derive(Clone, Debug)]
pub enum FileOutcome {
    /// It already has an embedded date and such files are ignored.
    Skipped,
    /// No point in time could be found from its name.
    Failed(Error),
    /// A point in time was found, but the file already has an embedded date,
    /// which is kept.
    AlreadyDated { resolved: Timestamp, existing: Timestamp },
    /// It goes to the work queue.
    Queued(WorkItem),
}

/// A file is skipped outright when it has an embedded date and such files
/// are to be ignored.
pub open spec fn skips(existing: Option<Timestamp>, ignore_existing_date: bool) -> bool {
    existing is Some && ignore_existing_date
}

/// The outcome for a file at `path`, given its embedded date, the flag,
/// and what resolving its name gave.
pub open spec fn outcome_of(
    path: Seq<char>,
    existing: Option<Timestamp>,
    ignore_existing_date: bool,
    resolved: Result<Timestamp, Error>,
    r: FileOutcome,
) -> bool {
    if skips(existing, ignore_existing_date) {
        r is Skipped
    } else {
        match resolved {
            Err(e) => r == FileOutcome::Failed(e),
            Ok(t) => match existing {
                Some(x) => r == (FileOutcome::AlreadyDated { resolved: t, existing: x }),
                None => r matches FileOutcome::Queued(w) && w.path@ == path && w.timestamp == t,
            },
        }
    }
}

/// Whether a file with embedded date `existing` is skipped outright.
pub fn should_skip(existing: &Option<Timestamp>, ignore_existing_date: bool) -> (r: bool)
    ensures
        r == skips(*existing, ignore_existing_date),
{
    existing.is_some() && ignore_existing_date
}

/// Decides what becomes of the file at `path` once its name was resolved to
/// `resolved`. A file with an embedded date never goes to the work queue.
pub fn decide_file(
    path: &str,
    existing: Option<Timestamp>,
    ignore_existing_date: bool,
    resolved: Result<Timestamp, Error>,
) -> (r: FileOutcome)
    ensures
        outcome_of(path@, existing, ignore_existing_date, resolved, r),
{
    if should_skip(&existing, ignore_existing_date) {
        return FileOutcome::Skipped;
    }
    match resolved {
        Err(e) => FileOutcome::Failed(e),
        Ok(t) => match existing {
            Some(x) => FileOutcome::AlreadyDated { resolved: t, existing: x },
            None => FileOutcome::Queued(WorkItem { path: path.to_owned(), timestamp: t }),
        },
    }
}

/// Decides what becomes of the file at `path`, named `file_name`, whose
/// metadata holds the date `existing`. The date is looked for in the name
/// alone.
///
/// A file with an embedded date is skipped when `ignore_existing_date` is
/// set, and otherwise reported beside the date found in its name; either
/// way it never goes to the work queue. A file without one goes to the work
/// queue when its name resolves to a point in time.
pub fn assess_file(
    path: &str,
    file_name: &str,
    existing: Option<Timestamp>,
    ignore_existing_date: bool,
) -> (r: FileOutcome)
    ensures
        r is Skipped <==> skips(existing, ignore_existing_date),
        existing is Some ==> !(r is Queued),
        existing is Some && !ignore_existing_date ==> match r {
            FileOutcome::AlreadyDated { resolved: _, existing: kept } => existing == Some(kept),
            FileOutcome::Failed(_) => true,
            _ => false,
        },
        existing is None ==> (r is Queued || r is Failed),
        r matches FileOutcome::Queued(w) ==> w.path@ == path@ && resolution_of(
            file_name@,
            Ok(w.timestamp),
        ),
        r matches FileOutcome::AlreadyDated { resolved, existing: _ } ==> resolution_of(
            file_name@,
            Ok(resolved),
        ),
        !skips(existing, ignore_existing_date) && parse_input(file_name@) is None ==> (r matches FileOutcome::Failed(
            Error::NoDate(n),
        ) && n@ == file_name@),
        !skips(existing, ignore_existing_date) && parse_input(file_name@) is Some ==> match r {
            FileOutcome::Failed(Error::DateParse { parsing, filename, reason: _ }) => Some(parsing@)
                == parse_input(file_name@) && filename@ == file_name@,
            FileOutcome::Failed(_) => false,
            _ => true,
        },
{
    if should_skip(&existing, ignore_existing_date) {
        return FileOutcome::Skipped;
    }
    let resolved = get_date_from_file(file_name);
    decide_file(path, existing, ignore_existing_date, resolved)
}

} // verus!

//! The settings of one run.
use vstd::prelude::*;

verus! {

/// Settings of one run: whether to only show the changes, whether to
/// overwrite files in place, whether to ignore files that already have an
/// embedded date, and the files to process in order.
#[derive(Clone, Debug)]
pub struct Args {
    pub dryrun: bool,
    pub overwrite: bool,
    pub ignore_existing_date: bool,
    pub files: Vec<String>,
}

} // verus!

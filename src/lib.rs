//! Infers capture dates of media files from their names and plans the
//! metadata rewrites that apply them.
//!
//! A filename goes through three steps: [`extract`] finds the span that
//! looks like a date and time, [`normalize`] turns it into a canonical date
//! and time of day, and [`resolve`] hands the result to a date parser. The
//! [`gate`] decides whether a file goes to the work queue, and [`dispatch`]
//! plans the command that writes its date.
pub mod search;
pub mod text;
pub mod extract;
pub mod normalize;
pub mod timestamp;
pub mod resolve;
pub mod gate;
pub mod dispatch;
pub mod cli;
pub mod laws;

pub use cli::Args;
pub use dispatch::{build_command, dispatch_for, plan_dispatch, Dispatch};
pub use extract::extract_date_with_regex;
pub use gate::{assess_file, decide_file, should_skip, FileOutcome, WorkItem};
pub use normalize::get_date_time_parts;
pub use resolve::{
    date_parse_outcome, embedded_date_outcome, get_date_from_file, parse_embedded_date, resolution_text, Error,
};
pub use timestamp::Timestamp;

use vstd::prelude::*;

verus! {

/// Every failure the library reports. Each parse failure carries the text
/// that could not be read.
#[derive(Debug, Clone, PartialEq)]
pub enum Error {
    /// A date in a file name that is not a calendar date in `YYYY-MM-DD` form.
    TimeParse(String),
    /// A recurring-template line that does not have the `* [] @<interval> <name>` shape.
    InvalidRecurringTaskSyntax(String),
    /// A task line that does not have the `* [<state>] <name>` shape.
    InvalidTaskSyntax(String),
    /// An interval word that names no known interval.
    InvalidIntervalSyntax(String),
    /// A workspace path with no last component to name the workspace by.
    InvalidWorkspaceName(String),
    /// A workspace path that is not a directory.
    WorkspaceIsNotDirectory,
    /// A day path with no file name to read a date from.
    InvalidDayPath(String),
    /// The file for the day being created is already there.
    DayAlreadyExists(String),
}

} // verus!

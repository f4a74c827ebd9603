//! The ways an operation of the task list can fail.

use vstd::prelude::*;

verus! {

/// Why an operation failed.
#[derive(Clone, Copy, Debug, PartialEq, Eq, Structural)]
pub enum TaskError {
    /// The task file is missing or unreadable.
    IoUnavailable,
    /// A stored line is not a well-formed record.
    MalformedRecord,
    /// A date text does not match `month/day/year hour:minute am|pm`.
    InvalidDateFormat,
    /// No entry carries the requested id.
    EntryNotFound,
    /// The print template holds an unknown directive.
    BadTemplate,
    /// A command argument is malformed.
    InvalidArgument,
}

/// The description of each error.
pub open spec fn message_of(e: TaskError) -> Seq<char> {
    match e {
        TaskError::IoUnavailable => "the task file could not be read"@,
        TaskError::MalformedRecord => "a stored line is not a well-formed record"@,
        TaskError::InvalidDateFormat => "expected a date like 9/21/2021 11:59 pm"@,
        TaskError::EntryNotFound => "no entry has that id"@,
        TaskError::BadTemplate => "the print template holds an unknown directive"@,
        TaskError::InvalidArgument => "malformed command argument"@,
    }
}

impl TaskError {
    /// A short description of the error.
    pub fn message(&self) -> (r: &'static str)
        ensures
            r@ == message_of(*self),
    {
        match self {
            TaskError::IoUnavailable => "the task file could not be read",
            TaskError::MalformedRecord => "a stored line is not a well-formed record",
            TaskError::InvalidDateFormat => "expected a date like 9/21/2021 11:59 pm",
            TaskError::EntryNotFound => "no entry has that id",
            TaskError::BadTemplate => "the print template holds an unknown directive",
            TaskError::InvalidArgument => "malformed command argument",
        }
    }
}

} // verus!

//! The entries of the status log that a program leaves.

use crate::policy::Status as Outcome;
use crate::value::{clone_value, Value, ValueView};
use vstd::prelude::*;

verus! {

/// The status that one log entry reports.
#[allow(non_camel_case_types)]
#[derive(Clone, Copy, Debug, PartialEq, Eq, Structural)]
pub enum Status {
    CREATE_PRINCIPAL,
    CHANGE_PASSWORD,
    SET,
    APPEND,
    LOCAL,
    FOREACH,
    SET_DELEGATION,
    DELETE_DELEGATION,
    DEFAULT_DELEGATOR,
    DENIED,
    FAILED,
    RETURNING,
    EXITING,
}

/// One entry of the log. Only `RETURNING` carries an output.
#[derive(Debug, PartialEq, Eq)]
pub struct Entry {
    pub status: Status,
    pub output: Option<Value>,
}

/// The mathematical content of an [`Entry`].
pub struct EntryView {
    pub status: Status,
    pub output: Option<ValueView>,
}

impl View for Entry {
    type V = EntryView;

    open spec fn view(&self) -> EntryView {
        EntryView {
            status: self.status,
            output: match self.output {
                Some(v) => Some(v@),
                None => None,
            },
        }
    }
}

/// The entry without output that reports `status`.
pub open spec fn plain_entry(status: Status) -> EntryView {
    EntryView { status: status, output: None }
}

/// The entry for the outcome of an operation: `success` where it
/// succeeded, else `DENIED` or `FAILED`.
pub open spec fn entry_for(outcome: Outcome, success: Status) -> EntryView {
    match outcome {
        Outcome::SUCCESS => plain_entry(success),
        Outcome::DENIED => plain_entry(Status::DENIED),
        Outcome::FAILED => plain_entry(Status::FAILED),
    }
}

/// Whether an entry reports that the program was given up.
pub open spec fn is_abort(entry: EntryView) -> bool {
    (entry.status == Status::DENIED || entry.status == Status::FAILED) && entry.output is None
}

impl Entry {
    /// The entry for the outcome of an operation.
    pub fn from(status: Outcome, success_status: Status) -> (res: Entry)
        ensures
            res@ == entry_for(status, success_status),
    {
        match status {
            Outcome::SUCCESS => Entry { status: success_status, output: None },
            Outcome::DENIED => Entry { status: Status::DENIED, output: None },
            Outcome::FAILED => Entry { status: Status::FAILED, output: None },
        }
    }
}

impl Clone for Entry {
    fn clone(&self) -> (res: Entry)
        ensures
            res@ == self@,
    {
        Entry {
            status: self.status,
            output: match &self.output {
                Some(v) => Some(clone_value(v)),
                None => None,
            },
        }
    }
}

/// The contents of a log.
pub open spec fn log_view(log: Seq<Entry>) -> Seq<EntryView> {
    Seq::new(log.len(), |i: int| log[i]@)
}

} // verus!

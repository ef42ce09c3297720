//! The error taxonomy shared by the whole crate: a closed set of error kinds,
//! each with a fixed description, optionally chained to a lower-level cause.

use vstd::prelude::*;

verus! {

/// The closed set of failure kinds a cache operation can report.
#[derive(Clone, Copy, Debug, PartialEq, Eq, Structural)]
pub enum ErrorKind {
    /// Constructing a Task from its serialized (JSON) form failed.
    ParserError,
    /// Reading a batch of tasks from an input stream failed.
    ReaderError,
    /// Invoking the external task-tracking binary failed.
    TaskCmdError,
    /// Converting a Task to its serialized (JSON) form failed.
    SerializeError,
    /// An identifier was marked dirty but no entry exists for it: an internal
    /// invariant violation of the cache itself, never a user error.
    CacheMissError,
    /// The caller attempted an operation that would discard unsaved changes.
    DirtyCacheError,
}

/// The fixed description attached to each error kind.
pub open spec fn kind_description(k: ErrorKind) -> Seq<char> {
    match k {
        ErrorKind::ParserError => "Failed to create a Task from JSON"@,
        ErrorKind::ReaderError => "Failed to read tasks from a Reader"@,
        ErrorKind::TaskCmdError => "There was a problem while calling the external 'task' binary"@,
        ErrorKind::SerializeError => "A Task could not be converted to JSON"@,
        ErrorKind::CacheMissError => "A not cached Task was marked as dirty. This is a bug in the task cache."@,
        ErrorKind::DirtyCacheError => "Tried to discard unsaved changes in TaskCache."@,
    }
}

/// The mathematical content of an [`Error`]: its kind and, where one was
/// recorded, the text of the lower-level cause it wraps.
pub struct ErrorView {
    pub kind: ErrorKind,
    pub cause: Option<Seq<char>>,
}

/// A typed failure: one of the fixed kinds, optionally wrapping the textual
/// rendering of a lower-level cause (a spawn failure, a malformed record).
#[derive(Debug)]
pub struct Error {
    kind: ErrorKind,
    cause: Option<String>,
}

impl View for Error {
    type V = ErrorView;

    closed spec fn view(&self) -> ErrorView {
        ErrorView {
            kind: self.kind,
            cause: match self.cause {
                Some(c) => Some(c@),
                None => None,
            },
        }
    }
}

impl Error {
    /// A bare error of the given kind, wrapping no cause.
    pub fn new(kind: ErrorKind) -> (e: Error)
        ensures
            e@ == (ErrorView { kind, cause: None }),
    {
        Error { kind, cause: None }
    }

    /// An error of the given kind chained to the text of a lower-level cause.
    pub fn chained(kind: ErrorKind, cause: String) -> (e: Error)
        ensures
            e@ == (ErrorView { kind, cause: Some(cause@) }),
    {
        Error { kind, cause: Some(cause) }
    }

    /// The kind of this error.
    pub fn kind(&self) -> (k: ErrorKind)
        ensures
            k == self@.kind,
    {
        self.kind
    }

    /// The text of the wrapped cause, where one was recorded.
    pub fn cause(&self) -> (c: Option<&String>)
        ensures
            match c {
                Some(s) => self@.cause == Some(s@),
                None => self@.cause is None,
            },
    {
        match &self.cause {
            Some(s) => Some(s),
            None => None,
        }
    }

    /// The fixed description of this error's kind.
    pub fn description(&self) -> (d: &'static str)
        ensures
            d@ == kind_description(self@.kind),
    {
        match self.kind {
            ErrorKind::ParserError => "Failed to create a Task from JSON",
            ErrorKind::ReaderError => "Failed to read tasks from a Reader",
            ErrorKind::TaskCmdError => "There was a problem while calling the external 'task' binary",
            ErrorKind::SerializeError => "A Task could not be converted to JSON",
            ErrorKind::CacheMissError => "A not cached Task was marked as dirty. This is a bug in the task cache.",
            ErrorKind::DirtyCacheError => "Tried to discard unsaved changes in TaskCache.",
        }
    }
}

} // verus!

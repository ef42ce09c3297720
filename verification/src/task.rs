//! The task model: the identifier used as cache key, the lifecycle status of
//! a task, and the task record itself. The external tool owns the full record;
//! the cache reads only the identifier and lets callers edit the rest.

use vstd::prelude::*;

verus! {

/// The stable unique identifier of a task: the 128-bit value of its UUID.
/// It must not change for the lifetime of a cached entry.
#[derive(Clone, Copy, Debug, Hash, PartialEq, Eq, Structural)]
pub struct TaskId {
    value: u128,
}

impl TaskId {
    /// An identifier holding the given 128-bit value.
    pub fn new(value: u128) -> (id: TaskId)
        ensures
            id.spec_value() == value,
    {
        TaskId { value }
    }

    /// The 128-bit value of this identifier.
    pub fn value(&self) -> (v: u128)
        ensures
            v == self.spec_value(),
    {
        self.value
    }

    /// The 128-bit value, for use in contracts.
    pub closed spec fn spec_value(self) -> u128 {
        self.value
    }
}

/// The lifecycle state of a task, as the external tool reports it.
#[derive(Clone, Copy, Debug, Hash, PartialEq, Eq, Structural)]
pub enum TaskStatus {
    Pending,
    Waiting,
    Recurring,
    Completed,
    Deleted,
}

/// The upper-cased textual name of a status, as it appears in query filters.
pub open spec fn status_name(s: TaskStatus) -> Seq<char> {
    match s {
        TaskStatus::Pending => "PENDING"@,
        TaskStatus::Waiting => "WAITING"@,
        TaskStatus::Recurring => "RECURRING"@,
        TaskStatus::Completed => "COMPLETED"@,
        TaskStatus::Deleted => "DELETED"@,
    }
}

impl TaskStatus {
    /// The upper-cased textual name of this status.
    pub fn name(&self) -> (r: &'static str)
        ensures
            r@ == status_name(*self),
    {
        match self {
            TaskStatus::Pending => "PENDING",
            TaskStatus::Waiting => "WAITING",
            TaskStatus::Recurring => "RECURRING",
            TaskStatus::Completed => "COMPLETED",
            TaskStatus::Deleted => "DELETED",
        }
    }
}

/// The mathematical content of a [`Task`].
pub struct TaskView {
    pub uuid: TaskId,
    pub status: TaskStatus,
    pub description: Seq<char>,
}

/// One unit of work tracked by the external tool. The cache requires only
/// that the identifier can be read; status and description stand for the
/// editable content of the record.
#[derive(Debug)]
pub struct Task {
    uuid: TaskId,
    status: TaskStatus,
    description: String,
}

impl View for Task {
    type V = TaskView;

    closed spec fn view(&self) -> TaskView {
        TaskView { uuid: self.uuid, status: self.status, description: self.description@ }
    }
}

impl Clone for Task {
    fn clone(&self) -> (r: Self)
        ensures
            r@ == self@,
    {
        Task { uuid: self.uuid, status: self.status, description: self.description.clone() }
    }
}

impl Task {
    /// A task with the given identifier, status and description.
    pub fn new(uuid: TaskId, status: TaskStatus, description: String) -> (t: Task)
        ensures
            t@ == (TaskView { uuid, status, description: description@ }),
    {
        Task { uuid, status, description }
    }

    /// The stable unique identifier of the record.
    pub fn uuid(&self) -> (id: TaskId)
        ensures
            id == self@.uuid,
    {
        self.uuid
    }

    /// The lifecycle status of the record.
    pub fn status(&self) -> (s: TaskStatus)
        ensures
            s == self@.status,
    {
        self.status
    }

    /// The descriptive text of the record.
    pub fn description(&self) -> (d: &String)
        ensures
            d@ == self@.description,
    {
        &self.description
    }

    /// Replaces the lifecycle status; the identifier stays as it was.
    pub fn set_status(&mut self, status: TaskStatus)
        ensures
            final(self)@ == (TaskView { status, ..old(self)@ }),
    {
        self.status = status;
    }

    /// Replaces the description; the identifier stays as it was.
    pub fn set_description(&mut self, description: String)
        ensures
            final(self)@ == (TaskView { description: description@, ..old(self)@ }),
    {
        self.description = description;
    }
}

} // verus!

//! A single task: what is to be done, when it was written down, and when it
//! was finished.

use crate::time::Timestamp;
use vstd::prelude::*;

verus! {

/// One unit of work.
#[derive(Clone, Debug, PartialEq, Eq)]
pub struct Task {
    /// What is to be done.
    pub text: String,
    /// When the task was written down.
    pub created: Timestamp,
    /// When the task was finished; `None` while it is active.
    pub completed: Option<Timestamp>,
}

/// A task as the contracts see it: its text as a sequence of characters.
pub struct TaskView {
    pub text: Seq<char>,
    pub created: Timestamp,
    pub completed: Option<Timestamp>,
}

impl TaskView {
    /// A task is active until it is completed.
    pub open spec fn is_active(self) -> bool {
        self.completed is None
    }

    /// Whether the task was completed no earlier than it was created. An
    /// active task always is.
    pub open spec fn is_chronological(self) -> bool {
        self.completed matches Some(at) ==> at.not_before(self.created)
    }

    /// Whether each timestamp of the task has a text, so that the task can
    /// be written to a row.
    pub open spec fn is_writable(self) -> bool {
        &&& self.created.text() is Some
        &&& self.completed matches Some(at) ==> at.text() is Some
    }

    /// The same task, completed at `at`.
    pub open spec fn completed_at(self, at: Timestamp) -> TaskView {
        TaskView { text: self.text, created: self.created, completed: Some(at) }
    }

    /// How the task is shown: its text, after an `X` if it is completed.
    pub open spec fn label(self) -> Seq<char> {
        if self.completed is None {
            self.text
        } else {
            "X "@ + self.text
        }
    }
}

impl View for Task {
    type V = TaskView;

    open spec fn view(&self) -> TaskView {
        TaskView { text: self.text@, created: self.created, completed: self.completed }
    }
}

impl DeepView for Task {
    type V = TaskView;

    open spec fn deep_view(&self) -> TaskView {
        self@
    }
}

impl Task {
    /// A new active task with the given text, created at `created`.
    pub fn new(text: String, created: Timestamp) -> (task: Task)
        ensures
            task@ == (TaskView { text: text@, created, completed: None }),
    {
        Task { text, created, completed: None }
    }

    /// A new active task with the given text, created now: at a time that
    /// the clock gives and that can be written.
    pub fn from_string(string: String) -> (task: Task)
        ensures
            task@.text == string@,
            task@.is_active(),
            task@.created.is_in_range(),
            task@.created.text() is Some,
            task@.is_writable(),
    {
        Task::new(string, Timestamp::now())
    }

    /// Whether the task is yet to be completed.
    pub fn is_active(&self) -> (r: bool)
        ensures
            r == self@.is_active(),
    {
        self.completed.is_none()
    }

    /// Marks the task as completed at `at`, whether or not it was before.
    pub fn complete_at(&mut self, at: Timestamp)
        ensures
            final(self)@ == old(self)@.completed_at(at),
    {
        self.completed = Some(at);
    }

    /// How the task is shown: its text, after an `X` if it is completed.
    pub fn label(&self) -> (r: String)
        ensures
            r@ == self@.label(),
    {
        let mut r = String::new();
        if self.completed.is_some() {
            r.append("X ");
        }
        r.append(self.text.as_str());
        r
    }
}

} // verus!

//! The shared run/pause/finished/error state of one download.
use vstd::prelude::*;
use crate::outcome::{error_text, DownloadError};

verus! {

/// State of a download as the caller controls and observes it.
#[derive(Clone, Debug, PartialEq, Eq)]
pub enum TaskState {
    Running,
    Paused,
    Finished,
    Error(String),
}

/// `s` is `Finished` or `Error`: no command moves it any more.
pub open spec fn terminal(s: TaskState) -> bool {
    s is Finished || s is Error
}

pub open spec fn paused_from(s: TaskState) -> TaskState {
    if s is Running {
        TaskState::Paused
    } else {
        s
    }
}

pub open spec fn resumed_from(s: TaskState) -> TaskState {
    if s is Paused {
        TaskState::Running
    } else {
        s
    }
}

impl TaskState {
    /// Whether workers must hold their next write.
    pub fn is_paused(&self) -> (r: bool)
        ensures
            r == (*self is Paused),
    {
        match self {
            TaskState::Paused => true,
            _ => false,
        }
    }

    /// Whether the download has ended, well or badly.
    pub fn is_terminal(&self) -> (r: bool)
        ensures
            r == terminal(*self),
    {
        match self {
            TaskState::Finished | TaskState::Error(_) => true,
            _ => false,
        }
    }

    /// Suspends a running download; any other state stays as it is.
    pub fn pause(&mut self)
        ensures
            *final(self) == paused_from(*old(self)),
    {
        if let TaskState::Running = self {
            *self = TaskState::Paused;
        }
    }

    /// Lets a paused download go on; any other state stays as it is.
    pub fn resume(&mut self)
        ensures
            *final(self) == resumed_from(*old(self)),
    {
        if let TaskState::Paused = self {
            *self = TaskState::Running;
        }
    }

    /// Records how the download ended: `Finished` on success, otherwise
    /// `Error` with the error's text. A state that has already ended stays.
    pub fn conclude(&mut self, result: &Result<(), DownloadError>)
        ensures
            terminal(*old(self)) ==> *final(self) == *old(self),
            !terminal(*old(self)) && result is Ok ==> *final(self) == TaskState::Finished,
            !terminal(*old(self)) && result is Err ==> (*final(self) matches TaskState::Error(m)
                && m@ == error_text(result->Err_0)),
    {
        if !self.is_terminal() {
            *self = match result {
                Ok(_) => TaskState::Finished,
                Err(e) => TaskState::Error(e.message()),
            };
        }
    }
}

} // verus!

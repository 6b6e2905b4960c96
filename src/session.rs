//! One download as its caller sees it: the task, the control state and the
//! progress, with the decisions that workers ask of it.
use vstd::prelude::*;
use crate::control::{paused_from, resumed_from, terminal, TaskState};
use crate::outcome::{error_text, DownloadError};
use crate::plan::{count_for, is_split, tiles, Chunk};
use crate::probe::{DownloadTask, TaskView};
use crate::progress::{percent_of, Progress, ProgressView};
use crate::worker::{progress_after, step_for, writer_after, ChunkWriter, Step};

verus! {

/// Most workers that fetch at the same time.
pub const MAX_WORKERS: u64 = 32;

/// How many workers may fetch at once for `n` chunks: one per chunk, at
/// least one, at most `MAX_WORKERS`.
pub fn worker_limit(n: u64) -> (r: u64)
    ensures
        r == if n < 1 {
            1
        } else if n > MAX_WORKERS {
            MAX_WORKERS
        } else {
            n
        },
        1 <= r <= MAX_WORKERS,
{
    if n < 1 {
        1
    } else if n > MAX_WORKERS {
        MAX_WORKERS
    } else {
        n
    }
}

/// A download in progress: its task, control state and progress.
pub struct Downloader {
    task: DownloadTask,
    state: TaskState,
    progress: Progress,
}

impl Downloader {
    pub closed spec fn task_view(&self) -> TaskView {
        self.task@
    }

    pub closed spec fn state_view(&self) -> TaskState {
        self.state
    }

    pub closed spec fn progress_view(&self) -> ProgressView {
        self.progress@
    }

    pub open spec fn wf(&self) -> bool {
        &&& self.task_view().total_size > 0
        &&& self.progress_view().total_size == self.task_view().total_size
    }

    /// A download of `task`, running, with nothing delivered yet.
    pub fn new(task: DownloadTask) -> (r: Downloader)
        requires
            task.wf(),
        ensures
            r.wf(),
            r.task_view() == task@,
            r.state_view() == TaskState::Running,
            r.progress_view() == (ProgressView { bytes_done: 0, total_size: task@.total_size }),
    {
        let total = task.total_size();
        Downloader { task, state: TaskState::Running, progress: Progress::new(total) }
    }

    pub fn task(&self) -> (r: &DownloadTask)
        ensures
            r@ == self.task_view(),
    {
        &self.task
    }

    /// The ranges that the workers fetch.
    pub fn chunks(&self) -> (r: Vec<Chunk>)
        requires
            self.wf(),
        ensures
            is_split(
                r@,
                self.task_view().total_size,
                count_for(self.task_view().total_size, self.task_view().supports_range),
            ),
            tiles(r@, self.task_view().total_size),
    {
        self.task.chunks()
    }

    /// Lets a paused download go on.
    pub fn start(&mut self)
        ensures
            final(self).state_view() == resumed_from(old(self).state_view()),
            final(self).task_view() == old(self).task_view(),
            final(self).progress_view() == old(self).progress_view(),
    {
        self.state.resume();
    }

    /// Holds every worker before its next write.
    pub fn pause(&mut self)
        ensures
            final(self).state_view() == paused_from(old(self).state_view()),
            final(self).task_view() == old(self).task_view(),
            final(self).progress_view() == old(self).progress_view(),
    {
        self.state.pause();
    }

    pub fn get_state(&self) -> (r: &TaskState)
        ensures
            *r == self.state_view(),
    {
        &self.state
    }

    /// Share delivered, in whole percent.
    pub fn progress(&self) -> (r: u8)
        requires
            self.wf(),
        ensures
            r == percent_of(self.progress_view().bytes_done, self.progress_view().total_size),
            r <= 100,
    {
        self.progress.percent()
    }

    pub fn bytes_done(&self) -> (r: u64)
        ensures
            r == self.progress_view().bytes_done,
    {
        self.progress.bytes_done()
    }

    /// The download has not ended yet.
    pub fn running(&self) -> (r: bool)
        ensures
            r == !terminal(self.state_view()),
    {
        !self.state.is_terminal()
    }

    /// A worker's buffer of `len` bytes has arrived: decides whether it waits,
    /// where it goes, and counts it once written.
    pub fn on_buffer(&mut self, writer: &mut ChunkWriter, len: u64) -> (r: Step)
        requires
            old(writer).wf(),
        ensures
            r == step_for(old(writer)@, old(self).state_view(), len),
            final(writer)@ == writer_after(old(writer)@, old(self).state_view(), len),
            final(writer).wf(),
            final(self).progress_view() == progress_after(
                old(writer)@,
                old(self).state_view(),
                len,
                old(self).progress_view(),
            ),
            final(self).state_view() == old(self).state_view(),
            final(self).task_view() == old(self).task_view(),
    {
        writer.on_buffer(&self.state, len, &mut self.progress)
    }

    /// Records the download's end: `Finished` on success, else `Error` with
    /// the error's text.
    pub fn conclude(&mut self, result: &Result<(), DownloadError>)
        ensures
            terminal(old(self).state_view()) ==> final(self).state_view() == old(self).state_view(),
            !terminal(old(self).state_view()) && result is Ok ==> final(self).state_view()
                == TaskState::Finished,
            !terminal(old(self).state_view()) && result is Err ==> (final(self).state_view() matches TaskState::Error(
                m,
            ) && m@ == error_text(result->Err_0)),
            final(self).task_view() == old(self).task_view(),
            final(self).progress_view() == old(self).progress_view(),
    {
        self.state.conclude(result);
    }
}

} // verus!

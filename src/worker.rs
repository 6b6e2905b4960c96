//! Decisions of one fetch worker: judging the response, gating each buffer on
//! the control state, and placing it inside the worker's own range.
use vstd::prelude::*;
use crate::control::TaskState;
use crate::outcome::{ChunkCause, ChunkError};
use crate::plan::Chunk;
use crate::progress::{added, lemma_percent_monotone, percent_of, Progress, ProgressView};

verus! {

/// What a worker does with a buffer that has arrived.
#[derive(Clone, Copy, Debug, PartialEq, Eq, Structural)]
pub enum Step {
    /// The download is paused: hold the buffer and ask again after the state changes.
    Wait,
    /// Write the buffer at this offset of the destination.
    Write(u64),
    /// The buffer does not fit in what is left of the range.
    Overrun,
}

/// What a chunk writer holds.
pub struct WriterView {
    pub chunk: Chunk,
    pub written: u64,
}

/// Position of one worker inside its chunk.
pub struct ChunkWriter {
    chunk: Chunk,
    written: u64,
}

impl View for ChunkWriter {
    type V = WriterView;

    closed spec fn view(&self) -> WriterView {
        WriterView { chunk: self.chunk, written: self.written }
    }
}

/// An HTTP status in the success class.
pub open spec fn is_success(status: u16) -> bool {
    200 <= status <= 299
}

/// Bytes of the range not yet written.
pub open spec fn remaining(w: WriterView) -> int {
    w.chunk.spec_len() - w.written
}

/// The step taken for a buffer of `len` bytes in state `s`.
pub open spec fn step_for(w: WriterView, s: TaskState, len: u64) -> Step {
    if s is Paused {
        Step::Wait
    } else if len <= remaining(w) {
        Step::Write((w.chunk.start + w.written) as u64)
    } else {
        Step::Overrun
    }
}

/// The writer after that step.
pub open spec fn writer_after(w: WriterView, s: TaskState, len: u64) -> WriterView {
    if step_for(w, s, len) is Write {
        WriterView { chunk: w.chunk, written: (w.written + len) as u64 }
    } else {
        w
    }
}

/// The progress counter after that step: only written bytes are counted.
pub open spec fn progress_after(w: WriterView, s: TaskState, len: u64, p: ProgressView) -> ProgressView {
    if step_for(w, s, len) is Write {
        added(p, len)
    } else {
        p
    }
}

/// Judges the status of the ranged response for chunk `index`.
pub fn check_status(index: u64, status: u16) -> (r: Result<(), ChunkError>)
    ensures
        is_success(status) ==> r is Ok,
        !is_success(status) ==> r == Err::<(), ChunkError>(
            ChunkError { index, cause: ChunkCause::Status(status) },
        ),
{
    if 200 <= status && status <= 299 {
        Ok(())
    } else {
        Err(ChunkError { index, cause: ChunkCause::Status(status) })
    }
}

impl ChunkWriter {
    pub open spec fn wf(&self) -> bool {
        &&& self@.chunk.start <= self@.chunk.end < u64::MAX
        &&& self@.written <= self@.chunk.spec_len()
    }

    /// A writer at the start of `chunk`.
    pub fn new(chunk: Chunk) -> (r: ChunkWriter)
        requires
            chunk.start <= chunk.end < u64::MAX,
        ensures
            r@ == (WriterView { chunk, written: 0 }),
            r.wf(),
    {
        ChunkWriter { chunk, written: 0 }
    }

    pub fn chunk(&self) -> (r: Chunk)
        ensures
            r == self@.chunk,
    {
        self.chunk
    }

    pub fn written(&self) -> (r: u64)
        ensures
            r == self@.written,
    {
        self.written
    }

    /// Takes a buffer of `len` bytes: holds it while `state` is paused, else
    /// places it right after what this worker has written and counts it in
    /// `progress`. A buffer that would leave the range is refused.
    pub fn on_buffer(&mut self, state: &TaskState, len: u64, progress: &mut Progress) -> (r: Step)
        requires
            old(self).wf(),
        ensures
            r == step_for(old(self)@, *state, len),
            final(self)@ == writer_after(old(self)@, *state, len),
            final(progress)@ == progress_after(old(self)@, *state, len, old(progress)@),
            final(self).wf(),
            r matches Step::Write(off) ==> old(self)@.chunk.start <= off && off + len <= old(self)@.chunk.end
                + 1,
    {
        if state.is_paused() {
            return Step::Wait;
        }
        let left = self.chunk.end - self.chunk.start + 1 - self.written;
        if len <= left {
            let off = self.chunk.start + self.written;
            self.written = self.written + len;
            progress.add(len);
            Step::Write(off)
        } else {
            Step::Overrun
        }
    }

    /// Judges the end of the body: the whole range must have arrived.
    pub fn finish(&self) -> (r: Result<(), ChunkError>)
        requires
            self.wf(),
        ensures
            self@.written == self@.chunk.spec_len() ==> r is Ok,
            self@.written != self@.chunk.spec_len() ==> r == Err::<(), ChunkError>(
                ChunkError { index: self@.chunk.index, cause: ChunkCause::Truncated },
            ),
    {
        if self.written == self.chunk.end - self.chunk.start + 1 {
            Ok(())
        } else {
            Err(ChunkError { index: self.chunk.index, cause: ChunkCause::Truncated })
        }
    }
}

/// While the download is paused a buffer changes neither the worker nor the
/// counter; once resumed, the same buffer is counted exactly once on top of
/// the value held during the pause.
pub proof fn lemma_pause_then_resume(w: WriterView, p: ProgressView, len: u64)
    requires
        len <= remaining(w),
        p.bytes_done + len <= u64::MAX,
    ensures
        writer_after(w, TaskState::Paused, len) == w,
        progress_after(w, TaskState::Paused, len, p) == p,
        ({
            let resumed = crate::control::resumed_from(TaskState::Paused);
            &&& resumed == TaskState::Running
            &&& progress_after(w, resumed, len, p).bytes_done == p.bytes_done + len
            &&& progress_after(w, resumed, len, p).total_size == p.total_size
        }),
{
}

/// No step of a worker lowers the percentage or moves it past 100, and none
/// changes the size it is measured against.
pub proof fn lemma_step_percent_monotone(w: WriterView, s: TaskState, len: u64, p: ProgressView)
    requires
        p.total_size > 0,
    ensures
        progress_after(w, s, len, p).total_size == p.total_size,
        percent_of(p.bytes_done, p.total_size) <= percent_of(
            progress_after(w, s, len, p).bytes_done,
            p.total_size,
        ) <= 100,
{
    lemma_percent_monotone(p, len);
    lemma_percent_monotone(p, 0);
}

} // verus!

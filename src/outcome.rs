//! Failures of a download, and their aggregation over all chunks.
use vstd::prelude::*;
use crate::text::{dec, push_decimal, push_str};

verus! {

/// Why one chunk failed.
#[derive(Clone, Debug, PartialEq, Eq)]
pub enum ChunkCause {
    /// The server answered the ranged request with a non-success status.
    Status(u16),
    /// The request or the body stream failed in transport.
    Transport(String),
    /// Writing the chunk's bytes to the destination failed.
    Io(String),
    /// The server sent more bytes than the range holds.
    Overrun,
    /// The body ended before the range was filled.
    Truncated,
}

/// A failed chunk: its index and the cause.
#[derive(Clone, Debug, PartialEq, Eq)]
pub struct ChunkError {
    pub index: u64,
    pub cause: ChunkCause,
}

/// Every way a download can fail.
#[derive(Clone, Debug, PartialEq, Eq)]
pub enum DownloadError {
    /// A request failed at the transport level.
    HttpRequest(String),
    /// The probe found no usable size.
    InvalidResponse,
    /// A local file operation failed.
    IO(String),
    /// One or more chunks failed; each is listed, in index order.
    ChunkFailure(Vec<ChunkError>),
    /// Reassembly found `actual` staged chunks where `expected` were planned.
    Merge { expected: u64, actual: u64 },
    /// The runtime failed to join a worker.
    Join(String),
}

/// The failures among `outcomes`, in their order.
pub open spec fn failures(outcomes: Seq<Result<(), ChunkError>>) -> Seq<ChunkError>
    decreases outcomes.len(),
{
    if outcomes.len() == 0 {
        Seq::empty()
    } else {
        let rest = failures(outcomes.drop_last());
        match outcomes.last() {
            Ok(_) => rest,
            Err(e) => rest.push(e),
        }
    }
}

/// What `aggregate` returns for `outcomes`.
pub open spec fn aggregated(outcomes: Seq<Result<(), ChunkError>>, r: Result<(), DownloadError>) -> bool {
    match r {
        Ok(_) => failures(outcomes).len() == 0,
        Err(DownloadError::ChunkFailure(v)) => failures(outcomes).len() > 0 && v@ == failures(
            outcomes,
        ),
        Err(_) => false,
    }
}

/// Collects the outcomes of all chunks: success when every chunk succeeded,
/// otherwise one error that lists every failed chunk.
pub fn aggregate(outcomes: Vec<Result<(), ChunkError>>) -> (r: Result<(), DownloadError>)
    ensures
        aggregated(outcomes@, r),
{
    let ghost all = outcomes@;
    let mut rest = outcomes;
    let mut failed: Vec<ChunkError> = Vec::new();
    while rest.len() > 0
        invariant
            rest@.len() <= all.len(),
            rest@ == all.subrange(all.len() - rest@.len(), all.len() as int),
            failed@ == failures(all.subrange(0, all.len() - rest@.len())),
        decreases rest@.len(),
    {
        let ghost i = all.len() - rest@.len();
        assert(all.subrange(0, i + 1).drop_last() == all.subrange(0, i));
        let o = rest.remove(0);
        assert(rest@ == all.subrange(i + 1, all.len() as int));
        match o {
            Ok(_) => {},
            Err(e) => {
                failed.push(e);
            },
        }
    }
    assert(all.subrange(0, all.len() as int) == all);
    if failed.len() == 0 {
        Ok(())
    } else {
        Err(DownloadError::ChunkFailure(failed))
    }
}

/// When exactly one chunk fails, the aggregated error lists that chunk alone,
/// with its index and cause.
pub proof fn lemma_single_failure(outcomes: Seq<Result<(), ChunkError>>, k: int)
    requires
        0 <= k < outcomes.len(),
        outcomes[k] is Err,
        forall|j: int| 0 <= j < outcomes.len() && j != k ==> #[trigger] outcomes[j] is Ok,
    ensures
        failures(outcomes) == seq![outcomes[k]->Err_0],
        forall|r: Result<(), DownloadError>| #[trigger]
            aggregated(outcomes, r) ==> (r matches Err(DownloadError::ChunkFailure(v)) && v@ == seq![
                outcomes[k]->Err_0,
            ]),
        forall|v: Vec<ChunkError>|
            v@ == seq![outcomes[k]->Err_0] ==> #[trigger] error_text(DownloadError::ChunkFailure(v))
                == "Chunk download failed:\n"@ + chunk_line(outcomes[k]->Err_0) + "\n"@,
{
    lemma_failures_none(outcomes.subrange(0, k));
    lemma_single_failure_rec(outcomes, k, outcomes.len() as int);
    assert(outcomes.subrange(0, outcomes.len() as int) == outcomes);
    let e = outcomes[k]->Err_0;
    assert(seq![e].drop_last() == Seq::<ChunkError>::empty());
    assert(seq![e].last() == e);
    assert(chunk_lines(Seq::<ChunkError>::empty()) == Seq::<char>::empty());
    assert(chunk_lines(seq![e]) =~= chunk_line(e) + "\n"@);
}

proof fn lemma_failures_none(s: Seq<Result<(), ChunkError>>)
    requires
        forall|j: int| 0 <= j < s.len() ==> #[trigger] s[j] is Ok,
    ensures
        failures(s).len() == 0,
    decreases s.len(),
{
    if s.len() > 0 {
        lemma_failures_none(s.drop_last());
    }
}

proof fn lemma_single_failure_rec(outcomes: Seq<Result<(), ChunkError>>, k: int, m: int)
    requires
        0 <= k < m <= outcomes.len(),
        outcomes[k] is Err,
        forall|j: int| 0 <= j < outcomes.len() && j != k ==> #[trigger] outcomes[j] is Ok,
        failures(outcomes.subrange(0, k)).len() == 0,
    ensures
        failures(outcomes.subrange(0, m)) == seq![outcomes[k]->Err_0],
    decreases m,
{
    let s = outcomes.subrange(0, m);
    assert(s.drop_last() == outcomes.subrange(0, m - 1));
    if m - 1 > k {
        lemma_single_failure_rec(outcomes, k, m - 1);
        assert(outcomes[m - 1] is Ok);
    } else {
        assert(failures(outcomes.subrange(0, k)) == Seq::<ChunkError>::empty());
    }
}

/// Text of a chunk failure's cause.
pub open spec fn cause_text(c: ChunkCause) -> Seq<char> {
    match c {
        ChunkCause::Status(code) => "HTTP status "@ + dec(code as u64),
        ChunkCause::Transport(m) => "transfer failed: "@ + m@,
        ChunkCause::Io(m) => "write failed: "@ + m@,
        ChunkCause::Overrun => "server sent more bytes than the range holds"@,
        ChunkCause::Truncated => "body ended before the range was complete"@,
    }
}

/// Line that names a failed chunk and its cause.
pub open spec fn chunk_line(e: ChunkError) -> Seq<char> {
    "\tChunk "@ + dec(e.index) + " failed: "@ + cause_text(e.cause)
}

/// One line per failed chunk, each ended by a newline.
pub open spec fn chunk_lines(v: Seq<ChunkError>) -> Seq<char>
    decreases v.len(),
{
    if v.len() == 0 {
        Seq::empty()
    } else {
        chunk_lines(v.drop_last()) + chunk_line(v.last()) + "\n"@
    }
}

/// Human-readable text of a download error.
pub open spec fn error_text(e: DownloadError) -> Seq<char> {
    match e {
        DownloadError::HttpRequest(m) => "HTTP request failed: "@ + m@,
        DownloadError::InvalidResponse => "Invalid Response Header"@,
        DownloadError::IO(m) => "File operation failed: "@ + m@,
        DownloadError::ChunkFailure(v) => "Chunk download failed:\n"@ + chunk_lines(v@),
        DownloadError::Merge { expected, actual } => "Merge failed: expected "@ + dec(expected)
            + " chunks, found "@ + dec(actual),
        DownloadError::Join(m) => "Task join failed: "@ + m@,
    }
}

impl ChunkCause {
    fn push_text(&self, s: &mut String)
        ensures
            final(s)@ == old(s)@ + cause_text(*self),
    {
        match self {
            ChunkCause::Status(code) => {
                push_str(s, "HTTP status ");
                push_decimal(s, *code as u64);
            },
            ChunkCause::Transport(m) => {
                push_str(s, "transfer failed: ");
                push_str(s, m.as_str());
            },
            ChunkCause::Io(m) => {
                push_str(s, "write failed: ");
                push_str(s, m.as_str());
            },
            ChunkCause::Overrun => push_str(s, "server sent more bytes than the range holds"),
            ChunkCause::Truncated => push_str(s, "body ended before the range was complete"),
        }
    }
}

impl ChunkError {
    /// The line that names this chunk and why it failed.
    pub fn message(&self) -> (r: String)
        ensures
            r@ == chunk_line(*self),
    {
        let mut s = String::new();
        push_str(&mut s, "\tChunk ");
        push_decimal(&mut s, self.index);
        push_str(&mut s, " failed: ");
        self.cause.push_text(&mut s);
        s
    }
}

impl DownloadError {
    /// Human-readable text of the error; a chunk failure lists every failed chunk.
    pub fn message(&self) -> (r: String)
        ensures
            r@ == error_text(*self),
    {
        let mut s = String::new();
        match self {
            DownloadError::HttpRequest(m) => {
                push_str(&mut s, "HTTP request failed: ");
                push_str(&mut s, m.as_str());
            },
            DownloadError::InvalidResponse => push_str(&mut s, "Invalid Response Header"),
            DownloadError::IO(m) => {
                push_str(&mut s, "File operation failed: ");
                push_str(&mut s, m.as_str());
            },
            DownloadError::ChunkFailure(v) => {
                push_str(&mut s, "Chunk download failed:\n");
                let ghost head = s@;
                let mut i: usize = 0;
                while i < v.len()
                    invariant
                        i <= v@.len(),
                        s@ == head + chunk_lines(v@.subrange(0, i as int)),
                    decreases v@.len() - i,
                {
                    assert(v@.subrange(0, i + 1).drop_last() == v@.subrange(0, i as int));
                    let line = v[i].message();
                    push_str(&mut s, line.as_str());
                    push_str(&mut s, "\n");
                    i = i + 1;
                }
                assert(v@.subrange(0, v@.len() as int) == v@);
            },
            DownloadError::Merge { expected, actual } => {
                push_str(&mut s, "Merge failed: expected ");
                push_decimal(&mut s, *expected);
                push_str(&mut s, " chunks, found ");
                push_decimal(&mut s, *actual);
            },
            DownloadError::Join(m) => {
                push_str(&mut s, "Task join failed: ");
                push_str(&mut s, m.as_str());
            },
        }
        s
    }
}

} // verus!

//! Aggregate of the bytes delivered by every worker, read as a percentage.
use vstd::prelude::*;

verus! {

/// What a progress counter holds.
pub struct ProgressView {
    pub bytes_done: u64,
    pub total_size: u64,
}

/// Bytes delivered so far against the size of the resource.
pub struct Progress {
    bytes_done: u64,
    total_size: u64,
}

impl View for Progress {
    type V = ProgressView;

    closed spec fn view(&self) -> ProgressView {
        ProgressView { bytes_done: self.bytes_done, total_size: self.total_size }
    }
}

/// `done * 100 / total`, clamped to 100.
pub open spec fn percent_of(done: u64, total: u64) -> u8
    recommends
        total > 0,
{
    if done >= total {
        100
    } else {
        (done as int * 100 / total as int) as u8
    }
}

/// The counter after `delta` more bytes; it stops at `u64::MAX` rather than wrap.
pub open spec fn added(p: ProgressView, delta: u64) -> ProgressView {
    ProgressView {
        bytes_done: if p.bytes_done + delta > u64::MAX {
            u64::MAX
        } else {
            (p.bytes_done + delta) as u64
        },
        total_size: p.total_size,
    }
}

impl Progress {
    pub open spec fn wf(&self) -> bool {
        self@.total_size > 0
    }

    pub fn new(total_size: u64) -> (r: Progress)
        requires
            total_size > 0,
        ensures
            r@ == (ProgressView { bytes_done: 0, total_size }),
            r.wf(),
    {
        Progress { bytes_done: 0, total_size }
    }

    /// Counts `delta` more bytes.
    pub fn add(&mut self, delta: u64)
        ensures
            final(self)@ == added(old(self)@, delta),
    {
        self.bytes_done = self.bytes_done.saturating_add(delta);
    }

    pub fn bytes_done(&self) -> (r: u64)
        ensures
            r == self@.bytes_done,
    {
        self.bytes_done
    }

    pub fn total_size(&self) -> (r: u64)
        ensures
            r == self@.total_size,
    {
        self.total_size
    }

    /// Share of the resource delivered, in whole percent.
    pub fn percent(&self) -> (r: u8)
        requires
            self.wf(),
        ensures
            r == percent_of(self@.bytes_done, self@.total_size),
            r <= 100,
    {
        if self.bytes_done >= self.total_size {
            100
        } else {
            let done = self.bytes_done as u128;
            let total = self.total_size as u128;
            assert((done as int) * 100 / (total as int) < 100) by (nonlinear_arith)
                requires
                    done < total,
                    total > 0,
            ;
            ((done * 100) / total) as u8
        }
    }

    /// Every byte of the resource has been delivered.
    pub fn finished(&self) -> (r: bool)
        ensures
            r == (self@.bytes_done >= self@.total_size),
    {
        self.bytes_done >= self.total_size
    }
}

/// The percentage never decreases as bytes are counted, and never exceeds 100.
pub proof fn lemma_percent_monotone(p: ProgressView, delta: u64)
    requires
        p.total_size > 0,
    ensures
        percent_of(p.bytes_done, p.total_size) <= percent_of(
            added(p, delta).bytes_done,
            p.total_size,
        ) <= 100,
{
    let a = p.bytes_done as int;
    let b = added(p, delta).bytes_done as int;
    let t = p.total_size as int;
    if b < t {
        assert(a * 100 / t <= b * 100 / t) by (nonlinear_arith)
            requires
                a <= b,
                t > 0,
        ;
        assert(b * 100 / t < 100) by (nonlinear_arith)
            requires
                b < t,
                t > 0,
        ;
    } else if a < t {
        assert(a * 100 / t < 100) by (nonlinear_arith)
            requires
                a < t,
                t > 0,
        ;
    }
}

} // verus!

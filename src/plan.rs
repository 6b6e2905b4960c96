//! Partition of a resource into contiguous byte ranges.
use vstd::prelude::*;

verus! {

pub const KB: u64 = 1024;

pub const MB: u64 = 1048576;

pub const GB: u64 = 1073741824;

/// One inclusive byte range `[start, end]` of the resource, fetched on its own.
#[derive(Clone, Copy, Debug, PartialEq, Eq, Structural)]
pub struct Chunk {
    pub index: u64,
    pub start: u64,
    pub end: u64,
}

impl Chunk {
    /// Number of bytes in the range.
    pub open spec fn spec_len(self) -> int {
        self.end - self.start + 1
    }
}

/// Chunk count that the size table gives for a resource of `total` bytes.
pub open spec fn table_count(total: u64) -> u64 {
    if total < 128 * KB {
        1
    } else if total < 512 * KB {
        4
    } else if total < MB {
        8
    } else if total < 5 * MB {
        32
    } else if total < 10 * MB {
        64
    } else if total < 50 * MB {
        256
    } else if total < 100 * MB {
        384
    } else if total < 500 * MB {
        512
    } else if total < GB {
        640
    } else if total < 5 * GB {
        768
    } else if total < 10 * GB {
        869
    } else {
        1024
    }
}

/// Chunk count for a resource: the table's, or one when ranges are not served.
pub open spec fn count_for(total: u64, supports_range: bool) -> u64 {
    if supports_range {
        table_count(total)
    } else {
        1
    }
}

/// First byte of range `i` when `total` bytes are split in `n`.
pub open spec fn range_start(total: u64, n: u64, i: int) -> int {
    i * (total / n) as int
}

/// Last byte of range `i`: the last range ends at the last byte of the resource.
pub open spec fn range_end(total: u64, n: u64, i: int) -> int {
    if i == n - 1 {
        total - 1
    } else {
        (i + 1) * (total / n) as int - 1
    }
}

/// `chunks` is the uniform split of `total` bytes into `n` ranges.
pub open spec fn is_split(chunks: Seq<Chunk>, total: u64, n: u64) -> bool {
    &&& chunks.len() == n
    &&& forall|i: int|
        0 <= i < n ==> {
            &&& #[trigger] chunks[i].index == i
            &&& chunks[i].start == range_start(total, n, i)
            &&& chunks[i].end == range_end(total, n, i)
        }
}

/// `chunks` are non-empty, in index order, contiguous, and together cover `[0, total)`.
pub open spec fn tiles(chunks: Seq<Chunk>, total: u64) -> bool {
    &&& chunks.len() > 0
    &&& chunks[0].start == 0
    &&& chunks.last().end == total - 1
    &&& forall|i: int|
        0 <= i < chunks.len() ==> #[trigger] chunks[i].index == i && chunks[i].start
            <= chunks[i].end
    &&& forall|i: int| 0 <= i < chunks.len() - 1 ==> #[trigger] chunks[i].end + 1 == chunks[i + 1].start
}

/// Byte `b` lies in the range of `c`.
pub open spec fn holds_byte(c: Chunk, b: int) -> bool {
    c.start <= b <= c.end
}

/// Byte `b` lies in the range of some chunk of `chunks`.
pub open spec fn covered(chunks: Seq<Chunk>, b: int) -> bool {
    exists|i: int| 0 <= i < chunks.len() && #[trigger] holds_byte(chunks[i], b)
}

proof fn lemma_start_bounds(total: u64, n: u64, i: int)
    requires
        1 <= n <= total,
        0 <= i <= n,
    ensures
        0 <= range_start(total, n, i) <= total,
        i < n ==> range_start(total, n, i) + (total / n) as int <= total,
        range_start(total, n, i + 1) == range_start(total, n, i) + (total / n) as int,
        total / n >= 1,
{
    let cs = (total / n) as int;
    assert(cs >= 1) by (nonlinear_arith)
        requires
            1 <= n <= total,
            cs == total / n,
    ;
    assert(n * cs <= total) by (nonlinear_arith)
        requires
            n >= 1,
            cs == total / n,
    ;
    assert(0 <= i * cs <= n * cs) by (nonlinear_arith)
        requires
            0 <= i <= n,
            cs >= 1,
    ;
    assert(i < n ==> i * cs + cs <= n * cs) by (nonlinear_arith)
        requires
            cs >= 1,
    ;
    assert((i + 1) * cs == i * cs + cs) by (nonlinear_arith);
}

proof fn lemma_start_step(total: u64, n: u64, i: int, j: int)
    requires
        1 <= n <= total,
        0 <= i < j <= n,
    ensures
        range_start(total, n, i) + (total / n) as int <= range_start(total, n, j),
{
    let cs = (total / n) as int;
    assert(i * cs + cs <= j * cs) by (nonlinear_arith)
        requires
            i < j,
            cs >= 0,
    ;
}

/// The uniform split of `total` bytes into `n` ranges tiles `[0, total)`.
pub proof fn lemma_split_tiles(chunks: Seq<Chunk>, total: u64, n: u64)
    requires
        1 <= n <= total,
        is_split(chunks, total, n),
    ensures
        tiles(chunks, total),
{
    assert forall|i: int| 0 <= i < chunks.len() implies #[trigger] chunks[i].index == i
        && chunks[i].start <= chunks[i].end by {
        lemma_start_bounds(total, n, i);
        assert(chunks[i].index == i);
    }
    assert forall|i: int| 0 <= i < chunks.len() - 1 implies #[trigger] chunks[i].end + 1
        == chunks[i + 1].start by {
        lemma_start_bounds(total, n, i);
        assert(chunks[i].index == i);
        assert(chunks[i + 1].index == i + 1);
    }
    assert(chunks[0].index == 0);
    assert(chunks[n - 1].index == n - 1);
}

/// Ranges of a tiling are pairwise disjoint and every byte of `[0, total)` lies in
/// exactly one of them.
pub proof fn lemma_tiles_partition(chunks: Seq<Chunk>, total: u64)
    requires
        tiles(chunks, total),
    ensures
        forall|i: int, j: int|
            0 <= i < j < chunks.len() ==> #[trigger] chunks[i].end < #[trigger] chunks[j].start,
        forall|b: int| 0 <= b < total ==> #[trigger] covered(chunks, b),
        forall|b: int, i: int, j: int|
            0 <= i < chunks.len() && 0 <= j < chunks.len() && #[trigger] holds_byte(chunks[i], b)
                && #[trigger] holds_byte(chunks[j], b) ==> i == j,
{
    lemma_tiles_ordered(chunks, total);
    assert forall|b: int| 0 <= b < total implies #[trigger] covered(chunks, b) by {
        lemma_tiles_find(chunks, total, b, chunks.len() - 1);
    }
    assert forall|b: int, i: int, j: int|
        0 <= i < chunks.len() && 0 <= j < chunks.len() && #[trigger] holds_byte(chunks[i], b)
            && #[trigger] holds_byte(chunks[j], b) implies i == j by {
        if i < j {
            assert(chunks[i].end < chunks[j].start);
        } else if j < i {
            assert(chunks[j].end < chunks[i].start);
        }
    }
}

pub proof fn lemma_tiles_ordered(chunks: Seq<Chunk>, total: u64)
    requires
        tiles(chunks, total),
    ensures
        forall|i: int, j: int|
            0 <= i < j < chunks.len() ==> #[trigger] chunks[i].end < #[trigger] chunks[j].start,
{
    assert forall|i: int, j: int| 0 <= i < j < chunks.len() implies #[trigger] chunks[i].end
        < #[trigger] chunks[j].start by {
        lemma_tiles_gap(chunks, total, i, j);
    }
}

proof fn lemma_tiles_gap(chunks: Seq<Chunk>, total: u64, i: int, j: int)
    requires
        tiles(chunks, total),
        0 <= i < j < chunks.len(),
    ensures
        chunks[i].end < chunks[j].start,
    decreases j - i,
{
    assert(chunks[j - 1].end + 1 == chunks[j].start);
    if i < j - 1 {
        lemma_tiles_gap(chunks, total, i, j - 1);
        assert(chunks[j - 1].index == j - 1);
    }
}

proof fn lemma_tiles_find(chunks: Seq<Chunk>, total: u64, b: int, k: int)
    requires
        tiles(chunks, total),
        0 <= k < chunks.len(),
        0 <= b <= chunks[k].end,
    ensures
        exists|i: int| 0 <= i <= k && #[trigger] holds_byte(chunks[i], b),
    decreases k,
{
    if b >= chunks[k].start {
        assert(holds_byte(chunks[k], b));
    } else {
        assert(chunks[k - 1].end + 1 == chunks[k].start);
        lemma_tiles_find(chunks, total, b, k - 1);
        let i = choose|i: int| 0 <= i <= k - 1 && #[trigger] holds_byte(chunks[i], b);
        assert(holds_byte(chunks[i], b));
    }
}

/// Chunk count from the size table.
pub fn table_chunk_count(total: u64) -> (r: u64)
    ensures
        r == table_count(total),
{
    if total < 128 * KB {
        1
    } else if total < 512 * KB {
        4
    } else if total < MB {
        8
    } else if total < 5 * MB {
        32
    } else if total < 10 * MB {
        64
    } else if total < 50 * MB {
        256
    } else if total < 100 * MB {
        384
    } else if total < 500 * MB {
        512
    } else if total < GB {
        640
    } else if total < 5 * GB {
        768
    } else if total < 10 * GB {
        869
    } else {
        1024
    }
}

/// The table never asks for more ranges than there are bytes, nor for none.
pub proof fn lemma_count_in_bounds(total: u64, supports_range: bool)
    requires
        total > 0,
    ensures
        1 <= count_for(total, supports_range) <= total,
        count_for(total, supports_range) <= 1024,
{
}

/// Chunk count for a resource of `total` bytes.
pub fn chunk_count(total: u64, supports_range: bool) -> (r: u64)
    ensures
        r == count_for(total, supports_range),
{
    if supports_range {
        table_chunk_count(total)
    } else {
        1
    }
}

/// Splits `total` bytes into `n` ranges of `total / n` bytes; the last range
/// takes the remainder and ends at byte `total - 1`.
pub fn split(total: u64, n: u64) -> (r: Vec<Chunk>)
    requires
        1 <= n <= total,
    ensures
        is_split(r@, total, n),
        tiles(r@, total),
{
    let cs: u64 = total / n;
    let mut r: Vec<Chunk> = Vec::new();
    let mut i: u64 = 0;
    while i < n
        invariant
            1 <= n <= total,
            cs == total / n,
            i <= n,
            r.len() == i,
            forall|k: int|
                0 <= k < i ==> {
                    &&& #[trigger] r@[k].index == k
                    &&& r@[k].start == range_start(total, n, k)
                    &&& r@[k].end == range_end(total, n, k)
                },
        decreases n - i,
    {
        proof {
            lemma_start_bounds(total, n, i as int);
        }
        let start: u64 = i * cs;
        let end: u64 = if i == n - 1 {
            total - 1
        } else {
            start + cs - 1
        };
        assert((i + 1) * cs as int == start + cs) by (nonlinear_arith)
            requires
                start == i * cs,
        ;
        let ghost prev = r@;
        r.push(Chunk { index: i, start, end });
        assert(r@[i as int] == Chunk { index: i, start, end });
        assert(forall|k: int| 0 <= k < i ==> r@[k] == prev[k]);
        i = i + 1;
    }
    assert(is_split(r@, total, n)) by {
        assert forall|k: int| 0 <= k < n implies {
            &&& #[trigger] r@[k].index == k
            &&& r@[k].start == range_start(total, n, k)
            &&& r@[k].end == range_end(total, n, k)
        } by {
            assert(r@[k].index == k);
        }
    }
    proof {
        lemma_split_tiles(r@, total, n);
    }
    r
}

/// The ranges to fetch for a resource of `total` bytes: the size table decides
/// how many, and a server without range support gets a single one.
pub fn plan(total: u64, supports_range: bool) -> (r: Vec<Chunk>)
    requires
        total > 0,
    ensures
        is_split(r@, total, count_for(total, supports_range)),
        tiles(r@, total),
        !supports_range ==> r@.len() == 1 && r@[0] == (Chunk { index: 0, start: 0, end: (total - 1) as u64 }),
{
    let n = chunk_count(total, supports_range);
    proof {
        lemma_count_in_bounds(total, supports_range);
    }
    let r = split(total, n);
    assert(r@[0].index == 0);
    r
}

} // verus!

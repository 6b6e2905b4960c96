//! Reassembly of the chunks into the destination: written in place at each
//! chunk's offset, or staged per chunk and joined in index order.
use vstd::prelude::*;
use crate::outcome::DownloadError;
use crate::plan::{covered, holds_byte, is_split, lemma_split_tiles, lemma_tiles_ordered, lemma_tiles_partition, tiles, Chunk};

verus! {

/// `buf` with `data` written from offset `off` on.
pub open spec fn placed(buf: Seq<u8>, off: int, data: Seq<u8>) -> Seq<u8> {
    buf.subrange(0, off) + data + buf.subrange(off + data.len(), buf.len() as int)
}

/// The bytes of `src` in the range of `c`.
pub open spec fn slice_of(src: Seq<u8>, c: Chunk) -> Seq<u8> {
    src.subrange(c.start as int, c.end + 1)
}

/// `buf` after each chunk `i` with `ok[i]` has had its bytes of `src` written
/// in place, in index order.
pub open spec fn place_chunks(buf: Seq<u8>, src: Seq<u8>, chunks: Seq<Chunk>, ok: Seq<bool>) -> Seq<u8>
    decreases chunks.len(),
{
    if chunks.len() == 0 {
        buf
    } else {
        let before = place_chunks(buf, src, chunks.drop_last(), ok.drop_last());
        if ok.last() {
            placed(before, chunks.last().start as int, slice_of(src, chunks.last()))
        } else {
            before
        }
    }
}

/// Some chunk `i` with `ok[i]` holds byte `b`.
pub open spec fn written_by(chunks: Seq<Chunk>, ok: Seq<bool>, b: int) -> bool {
    exists|i: int| 0 <= i < chunks.len() && ok[i] && #[trigger] holds_byte(chunks[i], b)
}

/// Number of staged parts present.
pub open spec fn staged_count(parts: Seq<Option<Vec<u8>>>) -> nat
    decreases parts.len(),
{
    if parts.len() == 0 {
        0
    } else {
        staged_count(parts.drop_last()) + if parts.last() is Some {
            1nat
        } else {
            0nat
        }
    }
}

/// The staged parts joined in order; a missing part adds nothing.
pub open spec fn joined(parts: Seq<Option<Vec<u8>>>) -> Seq<u8>
    decreases parts.len(),
{
    if parts.len() == 0 {
        Seq::empty()
    } else {
        joined(parts.drop_last()) + match parts.last() {
            Some(v) => v@,
            None => Seq::empty(),
        }
    }
}

/// Writes `data` into `file` from `offset` on.
pub fn write_at(file: &mut Vec<u8>, offset: u64, data: &[u8])
    requires
        offset + data@.len() <= old(file)@.len(),
    ensures
        final(file)@ == placed(old(file)@, offset as int, data@),
{
    let ghost orig = file@;
    let flen = file.len();
    assert(offset <= flen);
    let start = offset as usize;
    let mut j: usize = 0;
    while j < data.len()
        invariant
            start == offset,
            flen == orig.len(),
            start + data@.len() <= orig.len(),
            j <= data@.len(),
            file@.len() == orig.len(),
            forall|k: int|
                0 <= k < file@.len() ==> #[trigger] file@[k] == if start <= k < start + j {
                    data@[k - start]
                } else {
                    orig[k]
                },
        decreases data@.len() - j,
    {
        file.set(start + j, data[j]);
        j = j + 1;
    }
    assert(file@ =~= placed(orig, offset as int, data@));
}

/// Joins the staged parts in index order. All `expected` parts must be
/// present, else the count found is reported.
pub fn merge(expected: u64, parts: Vec<Option<Vec<u8>>>) -> (r: Result<Vec<u8>, DownloadError>)
    ensures
        parts@.len() == expected && staged_count(parts@) == expected ==> (r matches Ok(out)
            && out@ == joined(parts@)),
        !(parts@.len() == expected && staged_count(parts@) == expected) ==> r == Err::<
            Vec<u8>,
            DownloadError,
        >(DownloadError::Merge { expected, actual: staged_count(parts@) as u64 }),
{
    let ghost all = parts@;
    proof {
        lemma_staged_count_bound(all);
    }
    let n = parts.len();
    let mut rest = parts;
    let mut out: Vec<u8> = Vec::new();
    let mut count: u64 = 0;
    while rest.len() > 0
        invariant
            all.len() == n,
            staged_count(all) <= all.len(),
            rest@.len() <= n,
            rest@ == all.subrange(n - rest@.len(), n as int),
            count == staged_count(all.subrange(0, n - rest@.len())),
            out@ == joined(all.subrange(0, n - rest@.len())),
        decreases rest@.len(),
    {
        let ghost i = n - rest@.len();
        assert(all.subrange(0, i + 1).drop_last() == all.subrange(0, i));
        proof {
            lemma_staged_count_bound(all.subrange(0, i + 1));
        }
        let p = rest.remove(0);
        assert(rest@ == all.subrange(i + 1, n as int));
        match p {
            Some(v) => {
                let mut v = v;
                out.append(&mut v);
                count = count + 1;
            },
            None => {},
        }
    }
    assert(all.subrange(0, n as int) == all);
    if n as u64 == expected && count == expected {
        Ok(out)
    } else {
        Err(DownloadError::Merge { expected, actual: count })
    }
}

proof fn lemma_staged_count_bound(parts: Seq<Option<Vec<u8>>>)
    ensures
        staged_count(parts) <= parts.len(),
    decreases parts.len(),
{
    if parts.len() > 0 {
        lemma_staged_count_bound(parts.drop_last());
    }
}

proof fn lemma_place_bytes(buf: Seq<u8>, src: Seq<u8>, chunks: Seq<Chunk>, ok: Seq<bool>)
    requires
        buf.len() == src.len(),
        ok.len() == chunks.len(),
        forall|i: int| 0 <= i < chunks.len() ==> #[trigger] chunks[i].start <= chunks[i].end < src.len(),
    ensures
        place_chunks(buf, src, chunks, ok).len() == buf.len(),
        forall|b: int|
            0 <= b < buf.len() ==> #[trigger] place_chunks(buf, src, chunks, ok)[b] == if written_by(
                chunks,
                ok,
                b,
            ) {
                src[b]
            } else {
                buf[b]
            },
    decreases chunks.len(),
{
    if chunks.len() > 0 {
        let cs = chunks.drop_last();
        let oks = ok.drop_last();
        assert forall|i: int| 0 <= i < cs.len() implies #[trigger] cs[i].start <= cs[i].end
            < src.len() by {
            assert(chunks[i] == cs[i]);
        }
        lemma_place_bytes(buf, src, cs, oks);
        let before = place_chunks(buf, src, cs, oks);
        let last = chunks.last();
        assert(last.start <= last.end < src.len()) by {
            let l = chunks.len() - 1;
            assert(chunks[l].start <= chunks[l].end < src.len());
        }
        assert forall|b: int| 0 <= b < buf.len() implies #[trigger] place_chunks(
            buf,
            src,
            chunks,
            ok,
        )[b] == if written_by(chunks, ok, b) {
            src[b]
        } else {
            buf[b]
        } by {
            if written_by(cs, oks, b) {
                let i = choose|i: int| 0 <= i < cs.len() && oks[i] && #[trigger] holds_byte(cs[i], b);
                assert(ok[i] && holds_byte(chunks[i], b));
            }
            if ok.last() && holds_byte(last, b) {
                assert(ok[chunks.len() - 1] && holds_byte(chunks[chunks.len() - 1], b));
            }
            if written_by(chunks, ok, b) {
                let i = choose|i: int| 0 <= i < chunks.len() && ok[i] && #[trigger] holds_byte(chunks[i], b);
                if i < chunks.len() - 1 {
                    assert(oks[i] && holds_byte(cs[i], b));
                }
            }
        }
    }
}

/// Chunks written in place land at their own offsets: after the chunks marked
/// in `ok` are written into a buffer of the resource's size, each of their
/// ranges holds the source's bytes, and every byte outside them is untouched.
pub proof fn lemma_placed_ranges(buf: Seq<u8>, src: Seq<u8>, chunks: Seq<Chunk>, ok: Seq<bool>)
    requires
        buf.len() == src.len(),
        src.len() <= u64::MAX,
        tiles(chunks, src.len() as u64),
        ok.len() == chunks.len(),
    ensures
        place_chunks(buf, src, chunks, ok).len() == src.len(),
        forall|i: int|
            0 <= i < chunks.len() && ok[i] ==> #[trigger] place_chunks(buf, src, chunks, ok).subrange(
                chunks[i].start as int,
                chunks[i].end + 1,
            ) == slice_of(src, chunks[i]),
        forall|b: int|
            0 <= b < src.len() && !written_by(chunks, ok, b) ==> #[trigger] place_chunks(
                buf,
                src,
                chunks,
                ok,
            )[b] == buf[b],
{
    lemma_tiles_in_bounds(chunks, src.len() as u64);
    lemma_place_bytes(buf, src, chunks, ok);
    let out = place_chunks(buf, src, chunks, ok);
    assert forall|i: int| 0 <= i < chunks.len() && ok[i] implies #[trigger] place_chunks(
        buf,
        src,
        chunks,
        ok,
    ).subrange(chunks[i].start as int, chunks[i].end + 1) == slice_of(src, chunks[i]) by {
        assert forall|b: int| chunks[i].start <= b <= chunks[i].end implies out[b] == src[b] by {
            assert(holds_byte(chunks[i], b));
        }
        assert(out.subrange(chunks[i].start as int, chunks[i].end + 1) =~= slice_of(src, chunks[i]));
    }
}

proof fn lemma_tiles_in_bounds(chunks: Seq<Chunk>, total: u64)
    requires
        tiles(chunks, total),
    ensures
        forall|i: int| 0 <= i < chunks.len() ==> #[trigger] chunks[i].start <= chunks[i].end < total,
{
    lemma_tiles_ordered(chunks, total);
    assert forall|i: int| 0 <= i < chunks.len() implies #[trigger] chunks[i].start <= chunks[i].end
        < total by {
        assert(chunks[i].index == i);
        let l = chunks.len() - 1;
        assert(chunks[l].index == l);
        if i < l {
            assert(chunks[i].end < chunks[l].start);
        }
    }
}

/// Every chunk of every split, written in place into any buffer of the right
/// size, rebuilds the source byte for byte, whatever the number of chunks.
pub proof fn lemma_round_trip_direct(buf: Seq<u8>, src: Seq<u8>, chunks: Seq<Chunk>, n: u64)
    requires
        buf.len() == src.len(),
        1 <= n <= src.len() <= u64::MAX,
        is_split(chunks, src.len() as u64, n),
    ensures
        place_chunks(buf, src, chunks, Seq::new(n as nat, |i: int| true)) == src,
{
    let total = src.len() as u64;
    let ok = Seq::new(n as nat, |i: int| true);
    lemma_split_tiles(chunks, total, n);
    lemma_tiles_partition(chunks, total);
    lemma_tiles_in_bounds(chunks, total);
    lemma_place_bytes(buf, src, chunks, ok);
    let out = place_chunks(buf, src, chunks, ok);
    assert forall|b: int| 0 <= b < src.len() implies out[b] == src[b] by {
        assert(covered(chunks, b));
        let i = choose|i: int| 0 <= i < chunks.len() && #[trigger] holds_byte(chunks[i], b);
        assert(ok[i]);
        assert(written_by(chunks, ok, b));
    }
    assert(out =~= src);
}

/// Parts staged from every chunk of a tiling, joined in index order, rebuild
/// the source byte for byte, and all of them count as staged.
pub proof fn lemma_round_trip_merge(src: Seq<u8>, chunks: Seq<Chunk>, parts: Seq<Option<Vec<u8>>>)
    requires
        src.len() <= u64::MAX,
        tiles(chunks, src.len() as u64),
        parts.len() == chunks.len(),
        forall|i: int|
            0 <= i < parts.len() ==> #[trigger] parts[i] is Some && parts[i]->Some_0@ == slice_of(
                src,
                chunks[i],
            ),
    ensures
        joined(parts) == src,
        staged_count(parts) == parts.len(),
{
    lemma_tiles_in_bounds(chunks, src.len() as u64);
    lemma_joined_prefix(src, chunks, parts, parts.len() as int);
    let l = chunks.len() - 1;
    assert(parts.subrange(0, parts.len() as int) == parts);
    assert(src.subrange(0, chunks[l].end + 1) == src);
}

proof fn lemma_joined_prefix(src: Seq<u8>, chunks: Seq<Chunk>, parts: Seq<Option<Vec<u8>>>, m: int)
    requires
        src.len() <= u64::MAX,
        tiles(chunks, src.len() as u64),
        parts.len() == chunks.len(),
        forall|i: int| 0 <= i < chunks.len() ==> #[trigger] chunks[i].start <= chunks[i].end < src.len(),
        forall|i: int|
            0 <= i < parts.len() ==> #[trigger] parts[i] is Some && parts[i]->Some_0@ == slice_of(
                src,
                chunks[i],
            ),
        1 <= m <= parts.len(),
    ensures
        joined(parts.subrange(0, m)) == src.subrange(0, chunks[m - 1].end + 1),
        staged_count(parts.subrange(0, m)) == m,
    decreases m,
{
    let pre = parts.subrange(0, m);
    assert(pre.drop_last() == parts.subrange(0, m - 1));
    assert(pre.last() == parts[m - 1]);
    assert(parts[m - 1] is Some);
    assert(chunks[m - 1].start <= chunks[m - 1].end < src.len());
    assert(joined(pre) == joined(pre.drop_last()) + parts[m - 1]->Some_0@);
    assert(staged_count(pre) == staged_count(pre.drop_last()) + 1);
    if m == 1 {
        assert(chunks[0].index == 0);
        assert(pre.drop_last() == Seq::<Option<Vec<u8>>>::empty());
        assert(joined(pre.drop_last()) == Seq::<u8>::empty());
        assert(staged_count(pre.drop_last()) == 0);
        assert(joined(pre) =~= src.subrange(0, chunks[0].end + 1));
    } else {
        lemma_joined_prefix(src, chunks, parts, m - 1);
        assert(chunks[m - 2].end + 1 == chunks[m - 1].start);
        assert(chunks[m - 2].start <= chunks[m - 2].end < src.len());
        assert(joined(pre) =~= src.subrange(0, chunks[m - 1].end + 1));
    }
}

} // verus!

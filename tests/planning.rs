use stupidownloader::plan::{chunk_count, plan, split, table_chunk_count, Chunk, GB, KB, MB};
use stupidownloader::probe::DownloadTask;
use stupidownloader::session::{worker_limit, MAX_WORKERS};
use stupidownloader::text::{decimal, range_header};

fn assert_tiles(chunks: &[Chunk], total: u64) {
    assert!(!chunks.is_empty());
    assert_eq!(chunks[0].start, 0);
    assert_eq!(chunks[chunks.len() - 1].end, total - 1);
    for (i, c) in chunks.iter().enumerate() {
        assert_eq!(c.index, i as u64);
        assert!(c.start <= c.end);
        if i + 1 < chunks.len() {
            assert_eq!(c.end + 1, chunks[i + 1].start);
        }
    }
    let sum: u64 = chunks.iter().map(|c| c.end - c.start + 1).sum();
    assert_eq!(sum, total);
}

#[test]
fn ten_mib_in_four_chunks() {
    let chunks = split(10 * MB, 4);
    let ranges: Vec<(u64, u64)> = chunks.iter().map(|c| (c.start, c.end)).collect();
    assert_eq!(
        ranges,
        vec![(0, 2621439), (2621440, 5242879), (5242880, 7864319), (7864320, 10485759)]
    );
}

#[test]
fn last_chunk_takes_remainder() {
    let chunks = split(10, 3);
    let ranges: Vec<(u64, u64)> = chunks.iter().map(|c| (c.start, c.end)).collect();
    assert_eq!(ranges, vec![(0, 2), (3, 5), (6, 9)]);
    assert_tiles(&chunks, 10);
}

#[test]
fn planned_ranges_tile_the_resource() {
    for total in [1u64, 2, 1000, 128 * KB, 128 * KB + 1, 3 * MB + 7, 10 * MB, 77 * MB + 3] {
        let chunks = plan(total, true);
        assert_eq!(chunks.len() as u64, table_chunk_count(total));
        assert_tiles(&chunks, total);
    }
    for (total, n) in [(17u64, 17u64), (100, 7), (1 << 40, 1024), (u64::MAX, 1024)] {
        assert_tiles(&split(total, n), total);
    }
}

#[test]
fn no_range_support_gives_one_chunk() {
    for total in [1u64, 5 * MB, 20 * GB, u64::MAX] {
        let chunks = plan(total, false);
        assert_eq!(chunks, vec![Chunk { index: 0, start: 0, end: total - 1 }]);
        assert_eq!(chunk_count(total, false), 1);
    }
}

#[test]
fn missing_accept_ranges_yields_single_request() {
    let task = DownloadTask::from_headers(
        "http://example.com/f".to_string(),
        "f.bin".to_string(),
        Some("5000000"),
        None,
    )
    .unwrap();
    assert!(!task.supports_range());
    let chunks = task.chunks();
    assert_eq!(chunks, vec![Chunk { index: 0, start: 0, end: 4999999 }]);
    assert_eq!(range_header(&chunks[0]), "bytes=0-4999999");
    assert_eq!(worker_limit(chunks.len() as u64), 1);
}

#[test]
fn size_table_thresholds() {
    assert_eq!(table_chunk_count(0), 1);
    assert_eq!(table_chunk_count(128 * KB - 1), 1);
    assert_eq!(table_chunk_count(128 * KB), 4);
    assert_eq!(table_chunk_count(512 * KB), 8);
    assert_eq!(table_chunk_count(MB), 32);
    assert_eq!(table_chunk_count(5 * MB), 64);
    assert_eq!(table_chunk_count(10 * MB), 256);
    assert_eq!(table_chunk_count(50 * MB), 384);
    assert_eq!(table_chunk_count(100 * MB), 512);
    assert_eq!(table_chunk_count(500 * MB), 640);
    assert_eq!(table_chunk_count(GB), 768);
    assert_eq!(table_chunk_count(5 * GB), 869);
    assert_eq!(table_chunk_count(10 * GB), 1024);
    assert_eq!(table_chunk_count(u64::MAX), 1024);
    assert_eq!(chunk_count(10 * MB, true), 256);
}

#[test]
fn worker_limit_bounds() {
    assert_eq!(worker_limit(0), 1);
    assert_eq!(worker_limit(1), 1);
    assert_eq!(worker_limit(20), 20);
    assert_eq!(worker_limit(1024), MAX_WORKERS);
    assert_eq!(MAX_WORKERS, 32);
}

#[test]
fn range_header_is_inclusive() {
    let c = Chunk { index: 3, start: 7864320, end: 10485759 };
    assert_eq!(range_header(&c), "bytes=7864320-10485759");
    assert_eq!(decimal(0), "0");
    assert_eq!(decimal(9), "9");
    assert_eq!(decimal(10), "10");
    assert_eq!(decimal(u64::MAX), "18446744073709551615");
}

use stupidownloader::assemble::{merge, write_at};
use stupidownloader::control::TaskState;
use stupidownloader::outcome::{aggregate, ChunkCause, ChunkError, DownloadError};
use stupidownloader::plan::{split, Chunk};
use stupidownloader::probe::DownloadTask;
use stupidownloader::progress::Progress;
use stupidownloader::resume::{open_range_header, resume_from, Resume};
use stupidownloader::session::Downloader;
use stupidownloader::worker::{check_status, ChunkWriter, Step};

fn source(len: usize) -> Vec<u8> {
    (0..len).map(|i| (i * 31 % 251) as u8).collect()
}

/// Feeds `data` into `writer` in buffers of `piece` bytes, writing into `file`.
fn feed(d: &mut Downloader, writer: &mut ChunkWriter, data: &[u8], piece: usize, file: &mut Vec<u8>) {
    for buf in data.chunks(piece) {
        match d.on_buffer(writer, buf.len() as u64) {
            Step::Write(off) => write_at(file, off, buf),
            other => panic!("unexpected step {other:?}"),
        }
    }
}

fn task(total: u64) -> DownloadTask {
    DownloadTask::from_headers("u".to_string(), "o".to_string(), Some(&total.to_string()), Some(b"bytes"))
        .unwrap()
}

#[test]
fn ten_mib_download_finishes() {
    let total: u64 = 10 * 1048576;
    let src = source(total as usize);
    let mut d = Downloader::new(task(total));
    let chunks = split(total, 4);
    let mut file = vec![0u8; total as usize];
    let mut outcomes = Vec::new();
    for c in &chunks {
        assert!(check_status(c.index, 206).is_ok());
        let mut w = ChunkWriter::new(*c);
        feed(&mut d, &mut w, &src[c.start as usize..=c.end as usize], 65536, &mut file);
        outcomes.push(w.finish());
    }
    let result = aggregate(outcomes);
    assert!(result.is_ok());
    d.conclude(&result);
    assert_eq!(d.get_state(), &TaskState::Finished);
    assert!(!d.running());
    assert_eq!(d.progress(), 100);
    assert_eq!(file.len(), 10485760);
    assert!(file == src);
}

#[test]
fn round_trip_any_chunk_count() {
    let src = source(1000);
    for n in [1u64, 2, 17] {
        let chunks = split(1000, n);
        let mut direct = vec![0xAAu8; 1000];
        let mut parts = Vec::new();
        for c in chunks.iter().rev() {
            let part = &src[c.start as usize..=c.end as usize];
            write_at(&mut direct, c.start, part);
        }
        for c in &chunks {
            parts.push(Some(src[c.start as usize..=c.end as usize].to_vec()));
        }
        assert!(direct == src, "direct write with {n} chunks");
        assert!(merge(n, parts).unwrap() == src, "merge with {n} chunks");
    }
}

#[test]
fn single_failed_chunk_is_named() {
    let total: u64 = 4000;
    let src = source(total as usize);
    let mut d = Downloader::new(task(total));
    let chunks = split(total, 4);
    let mut file = vec![0u8; total as usize];
    let mut outcomes = Vec::new();
    for c in &chunks {
        let status: u16 = if c.index == 2 { 404 } else { 206 };
        match check_status(c.index, status) {
            Ok(()) => {
                let mut w = ChunkWriter::new(*c);
                feed(&mut d, &mut w, &src[c.start as usize..=c.end as usize], 300, &mut file);
                outcomes.push(w.finish());
            }
            Err(e) => outcomes.push(Err(e)),
        }
    }
    let result = aggregate(outcomes);
    let expected = ChunkError { index: 2, cause: ChunkCause::Status(404) };
    assert_eq!(result, Err(DownloadError::ChunkFailure(vec![expected])));
    let err = result.clone().unwrap_err();
    assert_eq!(err.message(), "Chunk download failed:\n\tChunk 2 failed: HTTP status 404\n");
    for c in &chunks {
        let (s, e) = (c.start as usize, c.end as usize);
        if c.index == 2 {
            assert!(file[s..=e].iter().all(|&b| b == 0));
        } else {
            assert_eq!(&file[s..=e], &src[s..=e]);
        }
    }
    d.conclude(&result);
    match d.get_state() {
        TaskState::Error(m) => assert!(m.contains("Chunk 2 failed: HTTP status 404")),
        other => panic!("unexpected state {other:?}"),
    }
    assert_eq!(d.progress(), 75);
}

#[test]
fn pause_holds_progress_until_resumed() {
    let mut d = Downloader::new(task(1000));
    let mut w = ChunkWriter::new(Chunk { index: 0, start: 0, end: 999 });
    assert_eq!(d.on_buffer(&mut w, 100), Step::Write(0));
    assert_eq!(d.bytes_done(), 100);
    d.pause();
    assert_eq!(d.get_state(), &TaskState::Paused);
    for _ in 0..3 {
        assert_eq!(d.on_buffer(&mut w, 50), Step::Wait);
        assert_eq!(d.bytes_done(), 100);
        assert_eq!(w.written(), 100);
    }
    d.start();
    assert_eq!(d.get_state(), &TaskState::Running);
    assert_eq!(d.on_buffer(&mut w, 50), Step::Write(100));
    assert_eq!(d.bytes_done(), 150);
    assert_eq!(d.progress(), 15);
}

#[test]
fn progress_is_monotone_and_capped() {
    let mut p = Progress::new(300);
    let mut last = p.percent();
    assert_eq!(last, 0);
    for delta in [1u64, 2, 0, 97, 50, 149, 1, 500] {
        p.add(delta);
        let now = p.percent();
        assert!(now >= last && now <= 100);
        last = now;
    }
    assert_eq!(p.bytes_done(), 800);
    assert_eq!(p.percent(), 100);
    assert!(p.finished());
    p.add(u64::MAX);
    assert_eq!(p.bytes_done(), u64::MAX);
    assert_eq!(p.percent(), 100);
    let mut q = Progress::new(3);
    q.add(1);
    assert_eq!(q.percent(), 33);
    assert!(!q.finished());
    assert_eq!(q.total_size(), 3);
}

#[test]
fn status_classes() {
    assert_eq!(check_status(0, 200), Ok(()));
    assert_eq!(check_status(0, 206), Ok(()));
    assert_eq!(check_status(0, 299), Ok(()));
    assert_eq!(check_status(5, 300), Err(ChunkError { index: 5, cause: ChunkCause::Status(300) }));
    assert_eq!(check_status(1, 199), Err(ChunkError { index: 1, cause: ChunkCause::Status(199) }));
    assert_eq!(check_status(1, 500), Err(ChunkError { index: 1, cause: ChunkCause::Status(500) }));
}

#[test]
fn overrun_and_truncation() {
    let mut p = Progress::new(10);
    let mut w = ChunkWriter::new(Chunk { index: 1, start: 5, end: 9 });
    assert_eq!(w.on_buffer(&TaskState::Running, 3, &mut p), Step::Write(5));
    assert_eq!(w.finish(), Err(ChunkError { index: 1, cause: ChunkCause::Truncated }));
    assert_eq!(w.on_buffer(&TaskState::Running, 3, &mut p), Step::Overrun);
    assert_eq!(p.bytes_done(), 3);
    assert_eq!(w.on_buffer(&TaskState::Running, 2, &mut p), Step::Write(8));
    assert_eq!(w.finish(), Ok(()));
    assert_eq!(w.chunk(), Chunk { index: 1, start: 5, end: 9 });
}

#[test]
fn merge_reports_missing_parts() {
    let parts = vec![Some(vec![1u8, 2]), None, Some(vec![3u8])];
    assert_eq!(merge(3, parts), Err(DownloadError::Merge { expected: 3, actual: 2 }));
    assert_eq!(merge(2, vec![Some(vec![1u8])]), Err(DownloadError::Merge { expected: 2, actual: 1 }));
    assert_eq!(merge(2, vec![Some(vec![1u8]), Some(vec![2u8, 3])]), Ok(vec![1u8, 2, 3]));
}

#[test]
fn every_failure_is_listed() {
    let outcomes = vec![
        Ok(()),
        Err(ChunkError { index: 1, cause: ChunkCause::Transport("reset".to_string()) }),
        Ok(()),
        Err(ChunkError { index: 3, cause: ChunkCause::Io("disk full".to_string()) }),
        Err(ChunkError { index: 4, cause: ChunkCause::Overrun }),
        Err(ChunkError { index: 5, cause: ChunkCause::Truncated }),
    ];
    let err = aggregate(outcomes).unwrap_err();
    assert_eq!(
        err.message(),
        "Chunk download failed:\n\
         \tChunk 1 failed: transfer failed: reset\n\
         \tChunk 3 failed: write failed: disk full\n\
         \tChunk 4 failed: server sent more bytes than the range holds\n\
         \tChunk 5 failed: body ended before the range was complete\n"
    );
    assert_eq!(aggregate(vec![Ok(()), Ok(())]), Ok(()));
    assert_eq!(aggregate(vec![]), Ok(()));
}

#[test]
fn error_texts() {
    assert_eq!(DownloadError::HttpRequest("timeout".to_string()).message(), "HTTP request failed: timeout");
    assert_eq!(DownloadError::InvalidResponse.message(), "Invalid Response Header");
    assert_eq!(DownloadError::IO("denied".to_string()).message(), "File operation failed: denied");
    assert_eq!(
        DownloadError::Merge { expected: 17, actual: 16 }.message(),
        "Merge failed: expected 17 chunks, found 16"
    );
    assert_eq!(DownloadError::Join("panicked".to_string()).message(), "Task join failed: panicked");
    assert_eq!(
        ChunkError { index: 12, cause: ChunkCause::Status(503) }.message(),
        "\tChunk 12 failed: HTTP status 503"
    );
}

#[test]
fn control_transitions() {
    let mut s = TaskState::Running;
    s.pause();
    assert_eq!(s, TaskState::Paused);
    assert!(s.is_paused());
    s.pause();
    assert_eq!(s, TaskState::Paused);
    s.resume();
    assert_eq!(s, TaskState::Running);
    s.resume();
    assert_eq!(s, TaskState::Running);
    s.conclude(&Ok(()));
    assert_eq!(s, TaskState::Finished);
    assert!(s.is_terminal());
    s.pause();
    s.conclude(&Err(DownloadError::InvalidResponse));
    assert_eq!(s, TaskState::Finished);
    let mut e = TaskState::Paused;
    e.conclude(&Err(DownloadError::InvalidResponse));
    assert_eq!(e, TaskState::Error("Invalid Response Header".to_string()));
    e.resume();
    assert!(e.is_terminal());
}

#[test]
fn resume_from_bytes_on_disk() {
    assert_eq!(resume_from(0, 1000), Resume::From(0));
    assert_eq!(resume_from(400, 1000), Resume::From(400));
    assert_eq!(resume_from(1000, 1000), Resume::Complete);
    assert_eq!(resume_from(1200, 1000), Resume::Complete);
    assert_eq!(resume_from(50, 0), Resume::From(50));
    assert_eq!(open_range_header(400), "bytes=400-");
    assert_eq!(open_range_header(0), "bytes=0-");
}

use tl_cli::engine::file_utils::{preallocation_error, preallocation_target, AllocFailure};
use tl_cli::engine::http_downloader::{
    after_worker_ended, request_headers, apply_split, can_create_chunks, check_complete, chunk_size_bytes, create_chunks, effective_user_agent,
    fallback_thread_count, file_size_from_headers, plan_split, range_header, thread_count,
    BufferPool, ChunkCursor, ChunkWorker, DownloadStatus, MIB,
};

#[test]
fn chunks_cover_the_file() {
    let c = create_chunks(25 * MIB, 10 * MIB, 1);
    // 25 MiB split in 2 parts gives 12.5 MiB > 10 MiB: the part size wins.
    let cs = 25 * MIB / 2;
    assert_eq!(c.len(), 2);
    assert_eq!(c[0].start_offset, 0);
    assert_eq!(c[0].end_offset, cs - 1);
    assert_eq!(c[1].start_offset, cs);
    assert_eq!(c[1].end_offset, 25 * MIB - 1);
    let c = create_chunks(25 * MIB, 10 * MIB, 4);
    assert_eq!(c.len(), 3);
    assert_eq!(c[2].end_offset, 25 * MIB - 1);
    for w in c.windows(2) {
        assert_eq!(w[1].start_offset, w[0].end_offset + 1);
    }
    assert!(c.iter().all(|k| !k.done));
}

#[test]
fn chunks_small_and_empty_files() {
    let c = create_chunks(5, 2, 64);
    assert_eq!(c.iter().map(|k| (k.start_offset, k.end_offset)).collect::<Vec<_>>(), vec![(0, 1), (2, 3), (4, 4)]);
    assert!(create_chunks(0, 10, 4).is_empty());
    assert!(create_chunks(-3, 10, 4).is_empty());
    // Parts below one MiB are raised to one MiB.
    let c = create_chunks(3 * MIB, 1, 1);
    assert_eq!(c.len(), 2);
    assert_eq!(c[0].end_offset, (3 * MIB / 2) - 1);
    let c = create_chunks(1000, 0, 1);
    assert_eq!(c.len(), 1);
    assert_eq!(c[0].end_offset, 999);
}

#[test]
fn split_halves_the_busiest_worker() {
    let mut ws = vec![ChunkWorker::new(0, 9), ChunkWorker::new(10, 10 + 10 * MIB), ChunkWorker::new(20 * MIB, 30 * MIB)];
    ws[0].progress = 10;
    let p = plan_split(&ws, 3).unwrap();
    assert_eq!(p.worker, 1);
    assert_eq!(p.mid, 10 + 5 * MIB);
    assert_eq!(p.new_start, 11 + 5 * MIB);
    assert_eq!(p.new_end, 10 + 10 * MIB);
    apply_split(&mut ws, p);
    // Only the chosen worker changes; the new range is started by the caller.
    assert_eq!(ws.len(), 3);
    assert_eq!(ws[1].end_pos, 10 + 5 * MIB);
    let fresh = ChunkWorker::new(p.new_start, p.new_end);
    assert_eq!(ws[1].remaining() + fresh.remaining(), 10 * MIB + 1);
    assert_eq!((ws[0].start_pos, ws[0].progress, ws[0].end_pos), (0, 10, 9));
    assert!(plan_split(&ws, 64).is_none());
    // Exactly 2 MiB left is not split; one byte more is.
    let small = vec![ChunkWorker::new(0, 2 * MIB - 1)];
    assert_eq!(small[0].remaining(), 2 * MIB);
    assert!(plan_split(&small, 1).is_none());
    let just_over = vec![ChunkWorker::new(0, 2 * MIB)];
    assert_eq!(just_over[0].remaining(), 2 * MIB + 1);
    let q = plan_split(&just_over, 1).unwrap();
    assert_eq!((q.worker, q.mid, q.new_start, q.new_end), (0, MIB, MIB + 1, 2 * MIB));
    let mut done = ChunkWorker::new(0, 5);
    done.progress = 9;
    assert_eq!(done.remaining(), 0);
}

#[test]
fn remaining_counts_the_inclusive_end() {
    assert_eq!(ChunkWorker::new(0, 9).remaining(), 10);
    assert_eq!(ChunkWorker::new(7, 7).remaining(), 1);
    let mut w = ChunkWorker::new(0, 9);
    w.progress = 10;
    assert_eq!(w.remaining(), 0);
}

#[test]
fn chunks_with_very_many_workers() {
    // The doubled worker count wraps to a negative divisor: the configured
    // chunk size is kept.
    let c = create_chunks(10, 3, usize::MAX / 2);
    assert_eq!(c.iter().map(|k| (k.start_offset, k.end_offset)).collect::<Vec<_>>(), vec![(0, 2), (3, 5), (6, 8), (9, 9)]);
    let c = create_chunks(10, 4, 1usize << 62);
    assert_eq!(c.len(), 3);
    assert!(can_create_chunks(10, 4, 1usize << 62));
    assert!(!can_create_chunks(10, 0, usize::MAX / 2));
    assert!(!can_create_chunks(10, 4, usize::MAX));
    assert!(!can_create_chunks(10, 4, 0));
}

#[test]
fn cursor_stops_at_shortened_end() {
    let mut c = ChunkCursor::new(100);
    let s = c.receive(50, 199);
    assert_eq!((s.write_len, s.flush, s.stop), (50, 0, false));
    let s = c.receive(80, 199);
    assert_eq!((s.write_len, s.flush, s.stop), (50, 0, true));
    assert_eq!(c.current_pos, 200);
    assert_eq!(c.finish(), 100);
    assert_eq!(c.local_downloaded, 0);
    let mut c = ChunkCursor::new(0);
    let s = c.receive(600 * 1024, 10 * MIB);
    assert_eq!(s.flush, 600 * 1024);
    assert_eq!(c.local_downloaded, 0);
    let mut c = ChunkCursor::new(500);
    let s = c.receive(10, 100);
    assert_eq!((s.write_len, s.stop), (0, true));
}

#[test]
fn range_and_user_agent() {
    assert_eq!(range_header(0, 0), "bytes=0-0");
    assert_eq!(range_header(1048576, 2097151), "bytes=1048576-2097151");
    assert_eq!(effective_user_agent(Some("tl/1")), "tl/1");
    assert!(effective_user_agent(Some("")).contains("Chrome/131.0.0.0"));
    assert!(effective_user_agent(None).starts_with("Mozilla/5.0"));
}

#[test]
fn file_size_prefers_content_range() {
    assert_eq!(file_size_from_headers(Some("bytes 0-0/12345"), Some("1")), Ok(12345));
    assert_eq!(file_size_from_headers(Some("bytes 0-0/*"), Some("777")), Ok(777));
    assert_eq!(file_size_from_headers(None, Some("42")), Ok(42));
    assert_eq!(file_size_from_headers(Some("bytes 0-0/0"), Some("0")), Err("Unable to determine file size".to_string()));
    assert_eq!(file_size_from_headers(None, None), Err("Unable to determine file size".to_string()));
    assert_eq!(file_size_from_headers(Some("bytes 0-0/-5"), Some("x")), Err("Unable to determine file size".to_string()));
}

#[test]
fn completion_check_message() {
    assert_eq!(check_complete(10, 10), Ok(()));
    assert_eq!(check_complete(7, 10), Err("download incomplete: 7/10 bytes".to_string()));
}

#[test]
fn worker_count_and_chunk_size() {
    assert_eq!(thread_count(Some(8)), 8);
    let t = thread_count(None);
    assert!(t >= 2);
    assert!(t % 2 == 0 || t == usize::MAX);
    assert_eq!(fallback_thread_count(4), 8);
    assert_eq!(fallback_thread_count(usize::MAX), usize::MAX);
    assert_eq!(chunk_size_bytes(Some(10)), 10 * MIB);
    assert_eq!(chunk_size_bytes(None), 10 * MIB);
    assert_eq!(chunk_size_bytes(Some(0)), 0);
}

#[test]
fn buffer_pool_reuses_buffers() {
    let mut p = BufferPool::new(4, 2);
    let a = p.get();
    assert_eq!(a, vec![0, 0, 0, 0]);
    let _b = p.get();
    let c = p.get();
    assert_eq!(c.len(), 4);
    p.put(vec![1, 2, 3, 4]);
    p.put(vec![9]);
    assert_eq!(p.get(), vec![1, 2, 3, 4]);
    assert_eq!(p.get(), vec![0, 0, 0, 0]);
}

#[test]
fn fresh_pool_hands_out_zeroed_buffers() {
    let mut p = BufferPool::new(8, 3);
    for _ in 0..5 {
        assert_eq!(p.get(), vec![0u8; 8]);
    }
}

#[test]
fn download_status_tracks_progress() {
    let mut s = DownloadStatus::new(100);
    assert_eq!(s.get_downloaded(), 0);
    assert!(!s.is_finished());
    s.add_downloaded(60);
    s.add_downloaded(40);
    assert_eq!(s.get_downloaded(), 100);
    assert!(s.is_finished());
    // The counter is the sum of what was added, in whatever order.
    let mut u = DownloadStatus::new(100);
    u.add_downloaded(40);
    u.add_downloaded(60);
    assert_eq!(u.get_downloaded(), s.get_downloaded());
    let mut t = DownloadStatus::new(100);
    assert_eq!(t.get_error(), None);
    t.set_error("worker error".to_string());
    assert_eq!(t.get_error(), Some("worker error".to_string()));
    assert!(t.is_finished());
    // The last message set is the one reported, and reading it changes nothing.
    t.set_error("second".to_string());
    t.add_downloaded(5);
    assert_eq!(t.get_error(), Some("second".to_string()));
    assert_eq!(t.get_error(), Some("second".to_string()));
    assert_eq!(t.get_downloaded(), 5);
}

#[test]
fn preallocation_decisions() {
    assert_eq!(preallocation_target(Some(100), 10), Some(100));
    assert_eq!(preallocation_target(Some(100), 100), None);
    assert_eq!(preallocation_target(None, 0), None);
    assert_eq!(preallocation_target(Some(-1), 0), Some(u64::MAX));
    assert_eq!(preallocation_error(AllocFailure::StorageFull), Some("Insufficient disk space".to_string()));
    assert!(preallocation_error(AllocFailure::FileTooLarge).unwrap().starts_with("File exceeds filesystem size limit"));
    assert_eq!(preallocation_error(AllocFailure::Other), None);
}

fn pair(a: &str, b: &str) -> (String, String) {
    (a.to_string(), b.to_string())
}

#[test]
fn request_headers_in_precedence_order() {
    let global = vec![pair("Referer", "https://e.com"), pair("accept", "text/html")];
    let task = vec![pair("Referer", "https://task.com")];
    let r = request_headers("tl/1", 0, 99, &global, &task);
    assert_eq!(
        r.fixed,
        vec![
            pair("user-agent", "tl/1"),
            pair("range", "bytes=0-99"),
            pair("accept", "*/*"),
            pair("accept-language", "en-US,en;q=0.9"),
            pair("accept-encoding", "identity"),
            pair("cache-control", "no-cache"),
        ]
    );
    assert_eq!(r.extra, vec![pair("Referer", "https://e.com"), pair("accept", "text/html"), pair("Referer", "https://task.com")]);
}

#[test]
fn loop_step_after_a_worker_ended() {
    let mut ws = vec![ChunkWorker::new(0, 10 * MIB - 1), ChunkWorker::new(10 * MIB, 11 * MIB)];
    let step = after_worker_ended(true, &mut ws, 2);
    assert!(step.record_error);
    let p = step.split.unwrap();
    assert_eq!((p.worker, p.mid, p.new_start, p.new_end), (0, 5 * MIB - 1, 5 * MIB, 10 * MIB - 1));
    assert_eq!(step.active_count, 3);
    assert_eq!(ws[0].end_pos, 5 * MIB - 1);
    assert_eq!(ws.len(), 2);
    let step = after_worker_ended(false, &mut ws, 64);
    assert!(!step.record_error);
    assert!(step.split.is_none());
    assert_eq!(step.active_count, 64);
    // A worker whose remaining work cannot be counted leaves everything as it is.
    let mut odd = vec![ChunkWorker { start_pos: 0, progress: i64::MIN, end_pos: i64::MAX }];
    let step = after_worker_ended(false, &mut odd, 1);
    assert!(step.split.is_none());
    assert_eq!(step.active_count, 1);
    assert_eq!(odd[0].end_pos, i64::MAX);
}

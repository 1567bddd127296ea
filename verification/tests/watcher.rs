use meowdiff::ignore::IgnoreMatcher;
use meowdiff::models::{FileOp, FileRecord, FileStats};
use meowdiff::pipeline::decompress_patch;
use meowdiff::storage::StorageEngine;
use meowdiff::util::{compute_project_id, hash_bytes};
use meowdiff::watcher::batch::{
    artifacts_of, file_records, gather, join_patches, order_files, record_id_preimage, BatchFile,
    PathState, TrackedFile, WatchError,
};
use meowdiff::watcher::lock::{
    needs_probe, Acquired, LockError, LockState, SignalOutcome, LOCK_FILENAME,
};
use meowdiff::watcher::microbatch::{Batcher, BatcherAction, BatcherInput, DEFAULT_WINDOW_MS};
use meowdiff::watcher::paths::insert_sorted;
use meowdiff::watcher::session::{WatchAction, WatchEvent, WatchState};
use meowdiff::watcher::{
    assemble_record, build_artifacts, collect_paths, generate_record_id, is_process_alive,
    next_batch, plan_batch, process_batch, send_terminate, watch, Batch, EventPath, FsEvent,
    LockInfo, WatchLock, WatchOptions,
};

const ROOT: &str = "/home/u/proj";

fn engine() -> StorageEngine {
    StorageEngine::open(ROOT, "/home/u/.meowdiff", Vec::new(), 0)
}

fn file(path: &str, content: &[u8]) -> TrackedFile {
    TrackedFile { path: path.to_string(), state: PathState::File(content.to_vec()) }
}

fn gone(path: &str) -> TrackedFile {
    TrackedFile { path: path.to_string(), state: PathState::Missing }
}

fn event(paths: &[(&str, bool)]) -> FsEvent {
    FsEvent {
        paths: paths
            .iter()
            .map(|(p, d)| EventPath { path: p.to_string(), is_dir: *d })
            .collect(),
    }
}

fn record(path: &str, after: Option<&str>) -> FileRecord {
    FileRecord {
        path: path.to_string(),
        op: FileOp::Added,
        before_sha: None,
        after_sha: after.map(|s| s.to_string()),
        stats: FileStats { added: 0, removed: 0, chunks: 0 },
    }
}

#[test]
fn created_file_becomes_one_record() {
    let mut e = engine();
    let out = process_batch(&mut e, 1000, 1060, &[file("a.txt", b"hello\n")], 5)
        .unwrap()
        .unwrap();
    assert_eq!(out.meta.files.len(), 1);
    let f = &out.meta.files[0];
    assert_eq!(f.path, "a.txt");
    assert_eq!(f.op, FileOp::Added);
    assert_eq!(f.before_sha, None);
    assert_eq!(f.after_sha, Some(hash_bytes(b"hello\n")));
    assert_eq!(f.stats.added, 1);
    assert_eq!(f.stats.removed, 0);
    assert_eq!(out.meta.stats.files, 1);
    assert_eq!(out.meta.stats.lines_added, 1);
    assert_eq!(out.meta.stats.lines_removed, 0);
    assert_eq!(out.meta.prev_record_id, None);
    assert_eq!(out.meta.project_id, compute_project_id(ROOT));
    assert_eq!(out.meta.started_at, 1000);
    assert_eq!(out.meta.ended_at, 1060);
    assert_eq!(out.meta.tool_version, "0.1.0");
    assert_eq!(
        out.patch,
        "--- /dev/null\n+++ b/a.txt\n@@ -0,0 +1 @@\n+hello\n\n"
    );
    assert_eq!(e.latest_record_id(), Some(out.meta.record_id.clone()));
    assert_eq!(e.fetch_snapshot("a.txt"), Some(hash_bytes(b"hello\n")));
    assert_eq!(e.timeline(None, None, None).len(), 1);
    let stored = e.read_patch(&out.meta.record_id).unwrap();
    assert_eq!(decompress_patch(&stored).unwrap(), out.patch);
    assert_eq!(e.list_projects()[0].last_seen, 5);
}

#[test]
fn modified_file_links_to_the_previous_record() {
    let mut e = engine();
    let first = process_batch(&mut e, 1000, 1060, &[file("a.txt", b"hello\n")], 0)
        .unwrap()
        .unwrap();
    let second = process_batch(&mut e, 2000, 2060, &[file("a.txt", b"hello\nworld\n")], 0)
        .unwrap()
        .unwrap();
    let f = &second.meta.files[0];
    assert_eq!(f.op, FileOp::Modified);
    assert_eq!(f.before_sha, first.meta.files[0].after_sha);
    assert_eq!(f.after_sha, Some(hash_bytes(b"hello\nworld\n")));
    assert_eq!(f.stats.added, 1);
    assert_eq!(f.stats.removed, 0);
    assert!(second.patch.contains("+world"));
    assert_eq!(second.meta.prev_record_id, Some(first.meta.record_id.clone()));
    assert_ne!(second.meta.record_id, first.meta.record_id);
    assert_eq!(e.latest_record_id(), Some(second.meta.record_id.clone()));
}

#[test]
fn deleted_file_leaves_the_snapshot_index() {
    let mut e = engine();
    process_batch(&mut e, 1000, 1060, &[file("a.txt", b"hello\n")], 0).unwrap();
    let out = process_batch(&mut e, 2000, 2060, &[gone("a.txt")], 0)
        .unwrap()
        .unwrap();
    let f = &out.meta.files[0];
    assert_eq!(f.op, FileOp::Deleted);
    assert_eq!(f.after_sha, None);
    assert_eq!(f.before_sha, Some(hash_bytes(b"hello\n")));
    assert_eq!(f.stats.removed, 1);
    assert_eq!(e.fetch_snapshot("a.txt"), None);
    assert_eq!(e.read_blob(&hash_bytes(b"hello\n")).unwrap(), b"hello\n");
}

#[test]
fn binary_file_is_recorded_with_placeholder() {
    let mut e = engine();
    let out = process_batch(&mut e, 1, 2, &[file("x.bin", &[0xff, 0x00, 0xfe])], 0)
        .unwrap()
        .unwrap();
    assert_eq!(out.patch, "Binary file change: x.bin\n\n");
    assert_eq!(out.meta.stats.lines_added, 0);
    assert_eq!(out.meta.stats.lines_removed, 0);
    assert_eq!(out.meta.files[0].stats.chunks, 1);
    assert_eq!(e.read_blob(&hash_bytes(&[0xff, 0x00, 0xfe])).unwrap(), [0xff, 0x00, 0xfe]);
}

#[test]
fn batch_without_changes_commits_nothing() {
    let mut e = engine();
    assert!(process_batch(&mut e, 1, 2, &[], 9).unwrap().is_none());
    assert!(process_batch(&mut e, 1, 2, &[gone("never.txt")], 9).unwrap().is_none());
    let dir = TrackedFile { path: "src".to_string(), state: PathState::Directory };
    assert!(process_batch(&mut e, 1, 2, &[dir], 9).unwrap().is_none());
    assert_eq!(e.latest_record_id(), None);
    assert_eq!(e.list_projects()[0].last_seen, 0);
    process_batch(&mut e, 10, 20, &[file("a.txt", b"x\n")], 0).unwrap();
    assert!(process_batch(&mut e, 30, 40, &[file("a.txt", b"x\n")], 0).unwrap().is_none());
    assert_eq!(e.timeline(None, None, None).len(), 1);
}

#[test]
fn batch_records_each_changed_file_in_order() {
    let mut e = engine();
    process_batch(&mut e, 1, 2, &[file("b.txt", b"b\n"), file("c.txt", b"c\n")], 0).unwrap();
    let dir = TrackedFile { path: "d".to_string(), state: PathState::Directory };
    let out = process_batch(
        &mut e,
        10,
        20,
        &[file("a.txt", b"a1\na2\n"), file("b.txt", b"b\n"), gone("c.txt"), dir],
        0,
    )
    .unwrap()
    .unwrap();
    let paths: Vec<&str> = out.meta.files.iter().map(|f| f.path.as_str()).collect();
    assert_eq!(paths, ["a.txt", "c.txt"]);
    assert_eq!(out.meta.stats.files, 2);
    assert_eq!(out.meta.stats.lines_added, 2);
    assert_eq!(out.meta.stats.lines_removed, 1);
    assert_eq!(
        out.patch,
        "--- /dev/null\n+++ b/a.txt\n@@ -0,0 +1,2 @@\n+a1\n+a2\n\n--- a/c.txt\n+++ /dev/null\n@@ -1 +0,0 @@\n-c\n\n"
    );
}

#[test]
fn replayed_batch_is_refused_as_duplicate() {
    let mut e = engine();
    process_batch(&mut e, 1000, 1060, &[file("a.txt", b"hello\n")], 0).unwrap();
    process_batch(&mut e, 1000, 1060, &[gone("a.txt")], 0).unwrap();
    let r = process_batch(&mut e, 1000, 1060, &[file("a.txt", b"hello\n")], 0);
    assert!(matches!(
        r,
        Err(WatchError::Storage(meowdiff::storage::StorageError::DuplicateRecord))
    ));
    assert_eq!(e.fetch_snapshot("a.txt"), None);
    assert_eq!(e.timeline(None, None, None).len(), 2);
}

#[test]
fn artifacts_diff_against_the_last_recorded_content() {
    let mut e = engine();
    process_batch(&mut e, 1, 2, &[file("a.txt", b"one\n")], 0).unwrap();
    let arts = build_artifacts(&[file("a.txt", b"two\n"), file("b.txt", b"bee\n")], &e).unwrap();
    assert_eq!(arts.len(), 2);
    assert_eq!(arts[0].record.op, FileOp::Modified);
    assert_eq!(arts[0].before_blob, Some(b"one\n".to_vec()));
    assert_eq!(arts[0].after_blob, Some(b"two\n".to_vec()));
    assert_eq!(arts[1].record.op, FileOp::Added);
    let records = file_records(&arts);
    assert_eq!(records.len(), 2);
    assert_eq!(records[0], arts[0].record);
    assert_eq!(records[1], arts[1].record);
}

#[test]
fn patches_are_joined_with_empty_lines() {
    let mut e = engine();
    process_batch(&mut e, 1, 2, &[file("n", b"x")], 0).unwrap();
    let arts = build_artifacts(&[file("bin", &[0xff]), file("e", b""), gone("n")], &e).unwrap();
    assert_eq!(arts.len(), 3);
    assert_eq!(
        join_patches(&arts),
        "Binary file change: bin\n\n\n\n--- a/n\n+++ /dev/null\n@@ -1 +0,0 @@\n-x\n\\ No newline at end of file\n\n"
    );
    assert_eq!(join_patches(&[]), "");
}

#[test]
fn record_id_is_derived_from_project_start_and_files() {
    let files = vec![record("a.txt", Some("aa11")), record("b.txt", None)];
    let mut hasher = blake3::Hasher::new();
    hasher.update(b"proj123");
    hasher.update(&1_700_000_000_123i64.to_be_bytes());
    hasher.update(b"a.txt");
    hasher.update(b"aa11");
    hasher.update(b"b.txt");
    let expected: String = hex::encode(hasher.finalize().as_bytes()).chars().take(12).collect();
    let id = generate_record_id("proj123", 1_700_000_000_123, &files);
    assert_eq!(id, expected);
    assert_eq!(id.len(), 12);
    assert_eq!(id, generate_record_id("proj123", 1_700_000_000_123, &files));
}

#[test]
fn record_id_ignores_all_but_paths_and_after_hashes() {
    let a = vec![record("a.txt", Some("aa11"))];
    let mut b = vec![record("a.txt", Some("aa11"))];
    b[0].op = FileOp::Modified;
    b[0].before_sha = Some("0000".to_string());
    b[0].stats = FileStats { added: 7, removed: 8, chunks: 9 };
    assert_eq!(generate_record_id("p", 5, &a), generate_record_id("p", 5, &b));
    assert_ne!(generate_record_id("p", 5, &a), generate_record_id("p", 6, &a));
    assert_ne!(generate_record_id("p", 5, &a), generate_record_id("q", 5, &a));
    let c = vec![record("a.txt", Some("aa12"))];
    assert_ne!(generate_record_id("p", 5, &a), generate_record_id("p", 5, &c));
}

#[test]
fn preimage_spells_the_start_big_endian() {
    assert_eq!(
        record_id_preimage("ab", 0x0102030405060708, &[record("p", Some("h")), record("q", None)]),
        [b'a', b'b', 1, 2, 3, 4, 5, 6, 7, 8, b'p', b'h', b'q']
    );
    assert_eq!(
        record_id_preimage("", -2, &[]),
        [0xff, 0xff, 0xff, 0xff, 0xff, 0xff, 0xff, 0xfe]
    );
}

#[test]
fn two_rapid_saves_are_one_batch() {
    let b = Batcher::new();
    let (b, a) = next_batch(b, BatcherInput::Event(event(&[("/home/u/proj/a.txt", false)])), 1000);
    assert!(matches!(a, BatcherAction::ArmTimer));
    let (b, a) = next_batch(b, BatcherInput::Event(event(&[("/home/u/proj/a.txt", false)])), 1020);
    assert!(matches!(a, BatcherAction::ArmTimer));
    let (b, a) = next_batch(b, BatcherInput::QuietElapsed, 1070);
    let batch = match a {
        BatcherAction::Emit(batch) => batch,
        other => panic!("expected a batch, got {:?}", other),
    };
    assert_eq!(batch.events.len(), 2);
    assert_eq!(batch.started_at, 1000);
    assert_eq!(batch.ended_at, 1070);
    assert!(matches!(b, Batcher::Idle));
    let (b, a) = next_batch(b, BatcherInput::QuietElapsed, 1200);
    assert!(matches!(a, BatcherAction::Wait));
    assert!(matches!(b, Batcher::Idle));

    let ignore = IgnoreMatcher::new(ROOT, None).unwrap();
    let paths = collect_paths(&batch.events, &ignore);
    assert_eq!(paths, ["a.txt"]);
    let mut e = engine();
    process_batch(&mut e, 0, 1, &[file("a.txt", b"before\n")], 0).unwrap();
    let out = process_batch(
        &mut e,
        batch.started_at,
        batch.ended_at,
        &[file("a.txt", b"after second save\n")],
        0,
    )
    .unwrap()
    .unwrap();
    assert_eq!(out.meta.files.len(), 1);
    assert_eq!(out.meta.files[0].before_sha, Some(hash_bytes(b"before\n")));
    assert_eq!(out.meta.files[0].after_sha, Some(hash_bytes(b"after second save\n")));
    assert_eq!(e.timeline(None, None, None).len(), 2);
}

#[test]
fn closed_source_drops_the_open_batch() {
    let b = Batcher::new();
    let (b, _) = next_batch(b, BatcherInput::Event(event(&[("/x", false)])), 1);
    assert!(matches!(b, Batcher::Collecting { .. }));
    let (b, a) = next_batch(b, BatcherInput::SourceClosed, 2);
    assert!(matches!(a, BatcherAction::EndOfStream));
    assert!(matches!(b, Batcher::Closed));
    let (b, a) = next_batch(b, BatcherInput::Event(event(&[("/x", false)])), 3);
    assert!(matches!(a, BatcherAction::EndOfStream));
    let (b, a) = next_batch(b, BatcherInput::QuietElapsed, 4);
    assert!(matches!(a, BatcherAction::EndOfStream));
    assert!(matches!(b, Batcher::Closed));
    let (b, a) = next_batch(Batcher::new(), BatcherInput::SourceClosed, 0);
    assert!(matches!(a, BatcherAction::EndOfStream));
    assert!(matches!(b, Batcher::Closed));
}

#[test]
fn default_window_is_fifty_milliseconds() {
    assert_eq!(DEFAULT_WINDOW_MS, 50);
    let options = WatchOptions::default();
    assert_eq!(options.window_ms, 50);
    assert_eq!(options.project_root, ".");
}

#[test]
fn paths_are_collected_once_and_in_order() {
    let ignore = IgnoreMatcher::new(ROOT, None).unwrap();
    let events = vec![
        event(&[("/home/u/proj/src/z.rs", false), ("/home/u/proj/a.txt", false)]),
        event(&[("/home/u/proj/src/z.rs", false)]),
        event(&[("/elsewhere/b.txt", false), ("/home/u/projx/c.txt", false)]),
        event(&[
            ("/home/u/proj/node_modules/m/index.js", false),
            ("/home/u/proj/target", true),
            ("/home/u/proj/.git/HEAD", false),
            ("/home/u/proj/src", true),
            ("/home/u/proj/B.txt", false),
        ]),
        event(&[]),
    ];
    assert_eq!(collect_paths(&events, &ignore), ["B.txt", "a.txt", "src", "src/z.rs"]);
    assert!(collect_paths(&[], &ignore).is_empty());
    assert_eq!(collect_paths(&[event(&[(ROOT, true)])], &ignore), [""]);
}

#[test]
fn sorted_insert_keeps_order_and_drops_repeats() {
    let mut v: Vec<String> = Vec::new();
    for p in ["m", "a", "z", "m", "ab", "a", "Z", ""] {
        insert_sorted(&mut v, p.to_string());
    }
    assert_eq!(v, ["", "Z", "a", "ab", "m", "z"]);
}

#[test]
fn live_lock_is_not_given() {
    let owner = LockInfo {
        project_id: "proj".to_string(),
        pid: 4242,
        started_at: 10,
        tool_version: "0.0.9".to_string(),
    };
    let found = LockState::Locked(owner.clone());
    let r = WatchLock::acquire("/m", "proj", found, true, 99, 1234);
    match r {
        Err(LockError::AlreadyRunning { project_id, pid }) => {
            assert_eq!(project_id, "proj");
            assert_eq!(pid, 4242);
        }
        other => panic!("expected refusal, got {:?}", other),
    }
    assert_eq!(owner.pid, 4242);
}

#[test]
fn stale_lock_is_replaced() {
    let owner = LockInfo {
        project_id: "proj".to_string(),
        pid: 4242,
        started_at: 10,
        tool_version: "0.0.9".to_string(),
    };
    let Acquired { lock, info, remove_stale } =
        WatchLock::acquire("/m", "proj", LockState::Locked(owner), false, 99, 1234).unwrap();
    assert!(remove_stale);
    assert_eq!(info.project_id, "proj");
    assert_eq!(info.pid, 99);
    assert_eq!(info.started_at, 1234);
    assert_eq!(info.tool_version, "0.1.0");
    assert_eq!(lock.file_path(), "/m/watch.lock");
    assert_eq!(lock.release(), "/m/watch.lock");
}

#[test]
fn free_lock_is_given() {
    let got = WatchLock::acquire("/m", "proj", LockState::Unlocked, true, 7, 1).unwrap();
    assert!(!got.remove_stale);
    assert_eq!(got.info.pid, 7);
    assert_eq!(got.lock.file_path(), WatchLock::path("/m"));
    let owner = LockInfo {
        project_id: "proj".to_string(),
        pid: 0,
        started_at: 10,
        tool_version: "x".to_string(),
    };
    let got = WatchLock::acquire("/m", "proj", LockState::Locked(owner), true, 7, 1).unwrap();
    assert!(got.remove_stale);
}

#[test]
fn unreadable_lock_fails_the_attempt() {
    let r = WatchLock::acquire("/m", "proj", LockState::Unreadable("eof".to_string()), false, 7, 1);
    match r {
        Err(LockError::Unreadable(reason)) => assert_eq!(reason, "eof"),
        other => panic!("expected failure, got {:?}", other),
    }
}

#[test]
fn lock_file_is_named_in_the_meta_directory() {
    assert_eq!(LOCK_FILENAME, "watch.lock");
    assert_eq!(WatchLock::path("/s/abc/meta"), "/s/abc/meta/watch.lock");
}

#[test]
fn non_positive_pid_is_never_alive() {
    assert!(is_process_alive(1, true));
    assert!(!is_process_alive(1, false));
    assert!(!is_process_alive(0, true));
    assert!(!is_process_alive(-1, true));
    assert!(!is_process_alive(i32::MIN, true));
    assert!(needs_probe(1));
    assert!(!needs_probe(0));
    assert!(!needs_probe(-5));
}

#[test]
fn terminate_succeeds_unless_the_system_refuses() {
    assert!(send_terminate(5, SignalOutcome::Delivered).is_ok());
    assert!(send_terminate(5, SignalOutcome::NoSuchProcess).is_ok());
    match send_terminate(5, SignalOutcome::Failed("EPERM".to_string())) {
        Err(LockError::SignalFailed { pid, reason }) => {
            assert_eq!(pid, 5);
            assert_eq!(reason, "EPERM");
        }
        other => panic!("expected failure, got {:?}", other),
    }
}

#[test]
fn session_stops_on_signals_and_survives_failed_batches() {
    let batch = Batch { events: vec![event(&[("/x", false)])], started_at: 1, ended_at: 2 };
    let (s, a) = watch(WatchState::Running, WatchEvent::BatchClosed(batch));
    assert_eq!(s, WatchState::Running);
    match a {
        WatchAction::Process(b) => {
            assert_eq!(b.events.len(), 1);
            assert_eq!(b.started_at, 1);
            assert_eq!(b.ended_at, 2);
        }
        other => panic!("expected a batch to process, got {:?}", other),
    }
    let (s, a) = watch(s, WatchEvent::BatchDone { failed: true });
    assert_eq!(s, WatchState::Running);
    assert!(matches!(a, WatchAction::Wait));
    let (s, a) = watch(s, WatchEvent::BatchDone { failed: false });
    assert_eq!(s, WatchState::Running);
    assert!(matches!(a, WatchAction::Wait));
    let (s, a) = watch(s, WatchEvent::Interrupt);
    assert_eq!(s, WatchState::Stopped);
    assert!(matches!(a, WatchAction::ReleaseLock));
    let (s, a) = watch(s, WatchEvent::Terminate);
    assert_eq!(s, WatchState::Stopped);
    assert!(matches!(a, WatchAction::Wait));
    let (s, a) = watch(WatchState::Running, WatchEvent::Terminate);
    assert_eq!(s, WatchState::Stopped);
    assert!(matches!(a, WatchAction::ReleaseLock));
    let (s, a) = watch(WatchState::Running, WatchEvent::SourceClosed);
    assert_eq!(s, WatchState::Stopped);
    assert!(matches!(a, WatchAction::ReleaseLock));
}

#[test]
fn record_is_assembled_from_its_artifacts() {
    let e = engine();
    let arts = build_artifacts(&[file("a.txt", b"1\n2\n"), file("b.txt", b"3\n")], &e).unwrap();
    let plan = assemble_record("proj", 10, 20, arts, Some("prev".to_string()))
        .unwrap()
        .unwrap();
    assert_eq!(plan.meta.project_id, "proj");
    assert_eq!(plan.meta.started_at, 10);
    assert_eq!(plan.meta.ended_at, 20);
    assert_eq!(plan.meta.prev_record_id, Some("prev".to_string()));
    assert_eq!(plan.meta.stats.files, 2);
    assert_eq!(plan.meta.stats.lines_added, 3);
    assert_eq!(plan.meta.stats.lines_removed, 0);
    assert_eq!(plan.meta.files.len(), 2);
    assert_eq!(plan.artifacts.len(), 2);
    assert_eq!(
        plan.meta.record_id,
        generate_record_id("proj", 10, &plan.meta.files)
    );
    assert_eq!(plan.patch, join_patches(&plan.artifacts));
    assert_eq!(decompress_patch(&plan.compressed).unwrap(), plan.patch);
    assert!(assemble_record("proj", 10, 20, Vec::new(), None).unwrap().is_none());
}

#[test]
fn totals_that_do_not_fit_abandon_the_batch() {
    let e = engine();
    let mut arts = build_artifacts(&[file("a.txt", b"1\n"), file("b.txt", b"2\n")], &e).unwrap();
    arts[0].record.stats.added = usize::MAX;
    let r = assemble_record("proj", 10, 20, arts, None);
    assert!(matches!(r, Err(WatchError::StatsOverflow)));
    assert_eq!(
        WatchError::StatsOverflow.message(),
        "batch has too many changed lines to count"
    );
}

#[test]
fn history_of_batches_is_a_chain() {
    let mut e = engine();
    let mut prev: Option<String> = None;
    let contents: [&[u8]; 4] = [b"1\n", b"2\n", b"3\n", b"4\n"];
    for (i, content) in contents.iter().enumerate() {
        let start = 1000 * (i as i64 + 1);
        let before = e.latest_record_id();
        let out = process_batch(&mut e, start, start + 50, &[file("a.txt", content)], 0)
            .unwrap()
            .unwrap();
        assert_eq!(out.meta.prev_record_id, before);
        assert_eq!(out.meta.prev_record_id, prev);
        assert_eq!(e.fetch_snapshot("a.txt"), Some(hash_bytes(content)));
        prev = Some(out.meta.record_id);
    }
    let t = e.timeline(None, None, None);
    assert_eq!(t.len(), 4);
    assert_eq!(Some(t[0].record_id.clone()), prev);
    for content in contents {
        assert_eq!(e.read_blob(&hash_bytes(content)).unwrap(), content);
    }
}

fn both_sides() -> Vec<BatchFile> {
    vec![
        BatchFile {
            path: "a.txt".to_string(),
            state: PathState::File(b"hello\nworld\n".to_vec()),
            before: Some(b"hello\n".to_vec()),
        },
        BatchFile { path: "d".to_string(), state: PathState::Directory, before: None },
        BatchFile {
            path: "same.txt".to_string(),
            state: PathState::File(b"x\n".to_vec()),
            before: Some(b"x\n".to_vec()),
        },
        BatchFile {
            path: "gone.txt".to_string(),
            state: PathState::Missing,
            before: Some(b"bye\n".to_vec()),
        },
    ]
}

#[test]
fn batch_is_planned_from_both_sides_of_its_files() {
    let files = both_sides();
    let arts = artifacts_of(&files);
    assert_eq!(arts.len(), 2);
    assert_eq!(arts[0].record.op, FileOp::Modified);
    assert_eq!(arts[0].record.before_sha, Some(hash_bytes(b"hello\n")));
    assert_eq!(arts[1].record.op, FileOp::Deleted);
    let plan = plan_batch("proj", 10, 20, files, Some("r0".to_string()))
        .unwrap()
        .unwrap();
    assert_eq!(plan.meta.files.len(), 2);
    assert_eq!(plan.meta.files[0].path, "a.txt");
    assert_eq!(plan.meta.files[1].path, "gone.txt");
    assert_eq!(plan.meta.stats.lines_added, 1);
    assert_eq!(plan.meta.stats.lines_removed, 1);
    assert_eq!(plan.meta.prev_record_id, Some("r0".to_string()));
    assert_eq!(plan.meta.record_id, generate_record_id("proj", 10, &plan.meta.files));
    assert_eq!(decompress_patch(&plan.compressed).unwrap(), plan.patch);
    let mut unchanged = both_sides();
    unchanged.remove(3);
    unchanged.remove(0);
    assert!(plan_batch("proj", 10, 20, unchanged, None).unwrap().is_none());
    assert!(plan_batch("proj", 10, 20, Vec::new(), None).unwrap().is_none());
}

#[test]
fn record_lists_files_by_path_whatever_order_they_come_in() {
    let sorted = plan_batch("proj", 10, 20, both_sides(), None).unwrap().unwrap();
    let mut shuffled = both_sides();
    shuffled.reverse();
    shuffled.swap(0, 2);
    let again = plan_batch("proj", 10, 20, shuffled, None).unwrap().unwrap();
    assert_eq!(again.meta.files, sorted.meta.files);
    assert_eq!(again.meta.record_id, sorted.meta.record_id);
    assert_eq!(again.patch, sorted.patch);

    let mut repeated = both_sides();
    repeated.push(BatchFile {
        path: "B.txt".to_string(),
        state: PathState::File(b"b\n".to_vec()),
        before: None,
    });
    repeated.push(BatchFile {
        path: "a.txt".to_string(),
        state: PathState::File(b"last\n".to_vec()),
        before: Some(b"hello\n".to_vec()),
    });
    let plan = plan_batch("proj", 10, 20, repeated, None).unwrap().unwrap();
    let paths: Vec<&str> = plan.meta.files.iter().map(|f| f.path.as_str()).collect();
    assert_eq!(paths, ["B.txt", "a.txt", "gone.txt"]);
    assert_eq!(plan.meta.files[1].after_sha, Some(hash_bytes(b"last\n")));

    let ordered = order_files(both_sides());
    let paths: Vec<&str> = ordered.iter().map(|f| f.path.as_str()).collect();
    assert_eq!(paths, ["a.txt", "d", "gone.txt", "same.txt"]);
}

#[test]
fn batch_commits_files_by_path_each_once() {
    let mut e = engine();
    let out = process_batch(
        &mut e,
        1,
        2,
        &[file("z.txt", b"z\n"), file("a.txt", b"old\n"), file("m.txt", b"m\n"), file("a.txt", b"a\n")],
        0,
    )
    .unwrap()
    .unwrap();
    let paths: Vec<&str> = out.meta.files.iter().map(|f| f.path.as_str()).collect();
    assert_eq!(paths, ["a.txt", "m.txt", "z.txt"]);
    assert_eq!(out.meta.files[0].after_sha, Some(hash_bytes(b"a\n")));
    assert_eq!(e.fetch_snapshot("a.txt"), Some(hash_bytes(b"a\n")));
    let arts = build_artifacts(&[file("q", b"q\n"), file("b", b"b\n"), file("q", b"q\n")], &e)
        .unwrap();
    let paths: Vec<&str> = arts.iter().map(|a| a.record.path.as_str()).collect();
    assert_eq!(paths, ["b", "q"]);
}

#[test]
fn last_recorded_content_is_gathered_from_the_store() {
    let mut e = engine();
    process_batch(&mut e, 1, 2, &[file("a.txt", b"one\n")], 0).unwrap();
    let dir = TrackedFile { path: "a.txt".to_string(), state: PathState::Directory };
    let found = gather(&[file("a.txt", b"two\n"), gone("b.txt"), dir], &e).unwrap();
    assert_eq!(found.len(), 3);
    assert_eq!(found[0].path, "a.txt");
    assert_eq!(found[0].before, Some(b"one\n".to_vec()));
    assert!(matches!(&found[0].state, PathState::File(b) if b == b"two\n"));
    assert_eq!(found[1].before, None);
    assert!(matches!(found[1].state, PathState::Missing));
    assert_eq!(found[2].before, None);
    assert!(matches!(found[2].state, PathState::Directory));
}

#[test]
fn stored_blob_reads_back_after_later_commits() {
    let mut e = engine();
    process_batch(&mut e, 1, 2, &[file("a.txt", b"hello\n")], 0).unwrap();
    process_batch(&mut e, 3, 4, &[file("a.txt", b"hello\nworld\n")], 0).unwrap();
    process_batch(&mut e, 5, 6, &[file("b.txt", b"hello\n")], 0).unwrap();
    process_batch(&mut e, 7, 8, &[gone("a.txt")], 0).unwrap();
    assert_eq!(e.fetch_snapshot("a.txt"), None);
    assert_eq!(e.fetch_snapshot("b.txt"), Some(hash_bytes(b"hello\n")));
    assert_eq!(e.read_blob(&hash_bytes(b"hello\n")).unwrap(), b"hello\n");
    assert_eq!(
        e.read_blob(&hash_bytes(b"hello\nworld\n")).unwrap(),
        b"hello\nworld\n"
    );
}

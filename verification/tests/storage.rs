use meowdiff::models::{FileOp, FileRecord, FileStats, RecordMeta, RecordStats};
use meowdiff::pipeline::{build_file_artifact, compress_patch, FileArtifact, FileInput};
use meowdiff::storage::{
    find_project_entry, join, snapshot_change, ProjectEntry, SnapshotChange, StorageEngine,
    StorageError, StoragePaths, StoredRecord,
};
use meowdiff::commit::{blobs_to_ensure, plan_commit, snapshot_changes};
use meowdiff::registry::touch_registry;
use meowdiff::util::{compute_project_id, hash_bytes};

const ROOT: &str = "/home/u/proj";
const STORE: &str = "/home/u/.meowdiff";

fn engine() -> StorageEngine {
    StorageEngine::open(ROOT, STORE, Vec::new(), 100)
}

fn artifact(path: &str, before: Option<&[u8]>, after: Option<&[u8]>) -> FileArtifact {
    build_file_artifact(FileInput {
        path: path.to_string(),
        before: before.map(|b| b.to_vec()),
        after: after.map(|b| b.to_vec()),
    })
    .unwrap()
    .unwrap()
}

fn meta(id: &str, start: i64, end: i64, prev: Option<&str>, files: Vec<FileRecord>) -> RecordMeta {
    let stats = RecordStats {
        files: files.len(),
        lines_added: files.iter().map(|f| f.stats.added).sum(),
        lines_removed: files.iter().map(|f| f.stats.removed).sum(),
    };
    RecordMeta {
        record_id: id.to_string(),
        project_id: compute_project_id(ROOT),
        started_at: start,
        ended_at: end,
        files,
        stats,
        prev_record_id: prev.map(|p| p.to_string()),
        tool_version: "0.1.0".to_string(),
    }
}

fn commit(e: &mut StorageEngine, id: &str, start: i64, end: i64, arts: Vec<FileArtifact>) {
    let files = arts.iter().map(|a| a.record.clone()).collect();
    let m = meta(id, start, end, None, files);
    let patch = compress_patch("patch").unwrap();
    e.commit_record(&m, &patch, &arts).unwrap();
}

#[test]
fn open_lays_out_the_project() {
    let e = engine();
    let id = compute_project_id(ROOT);
    assert_eq!(e.project_id(), id);
    assert_eq!(e.project_root(), ROOT);
    let p = e.paths();
    assert_eq!(p.project_dir, format!("{STORE}/{id}"));
    assert_eq!(p.records_dir, format!("{STORE}/{id}/records"));
    assert_eq!(p.blobs_dir, format!("{STORE}/{id}/blobs"));
    assert_eq!(p.meta_dir, format!("{STORE}/{id}/meta"));
    assert_eq!(p.timeline_db, format!("{STORE}/{id}/timeline.db"));
    assert_eq!(p.registry_file, format!("{STORE}/registry.json"));
    assert_eq!(e.latest_record_id(), None);
    assert!(e.timeline(None, None, None).is_empty());
    assert_eq!(e.fetch_snapshot("a.txt"), None);
    let projects = e.list_projects();
    assert_eq!(projects.len(), 1);
    assert_eq!(projects[0].project_id, id);
    assert_eq!(projects[0].path, ROOT);
    assert_eq!(projects[0].last_seen, 100);
}

#[test]
fn paths_are_joined_by_slashes() {
    assert_eq!(join("a", "b"), "a/b");
    let p = StoragePaths::new("/s", "abc");
    assert_eq!(p.project_dir, "/s/abc");
    assert_eq!(p.record_dir("r1"), "/s/abc/records/r1");
    assert_eq!(p.record_meta_path("r1"), "/s/abc/records/r1/meta.json");
    assert_eq!(p.record_patch_path("r1"), "/s/abc/records/r1/diff.patch.zst");
    assert_eq!(
        p.blob_path("abcdef"),
        Some("/s/abc/blobs/ab/abcdef.zst".to_string())
    );
    assert_eq!(p.blob_path("ab"), Some("/s/abc/blobs/ab/ab.zst".to_string()));
    assert_eq!(p.blob_path("a"), None);
    assert_eq!(p.blob_path(""), None);
    assert_eq!(p.blob_path("a\u{00e9}"), None);
}

#[test]
fn ensure_blob_twice_stores_once() {
    let mut e = engine();
    let content = b"hello\n".to_vec();
    let sha = hash_bytes(&content);
    assert!(!e.has_blob(&sha));
    e.ensure_blob(&sha, Some(&content)).unwrap();
    assert!(e.has_blob(&sha));
    assert_eq!(e.read_blob(&sha).unwrap(), content);
    e.ensure_blob(&sha, Some(&content)).unwrap();
    assert_eq!(e.read_blob(&sha).unwrap(), content);
    e.ensure_blob(&sha, None).unwrap();
    assert_eq!(e.read_blob(&sha).unwrap(), content);
    let other = b"something else".to_vec();
    e.ensure_blob(&sha, Some(&other)).unwrap();
    assert_eq!(e.read_blob(&sha).unwrap(), content);
}

#[test]
fn new_blob_needs_content() {
    let mut e = engine();
    let r = e.ensure_blob("abcdef", None);
    assert!(matches!(r, Err(StorageError::MissingContent)));
    assert!(!e.has_blob("abcdef"));
}

#[test]
fn short_hash_locates_no_blob() {
    let mut e = engine();
    let content = b"x".to_vec();
    assert!(matches!(
        e.ensure_blob("a", Some(&content)),
        Err(StorageError::InvalidHash)
    ));
    assert!(matches!(e.read_blob("a"), Err(StorageError::InvalidHash)));
}

#[test]
fn unknown_blob_is_not_found() {
    let e = engine();
    assert!(matches!(
        e.read_blob("0123456789"),
        Err(StorageError::BlobNotFound)
    ));
}

#[test]
fn empty_blob_reads_back_empty() {
    let mut e = engine();
    let content: Vec<u8> = Vec::new();
    let sha = hash_bytes(&content);
    e.ensure_blob(&sha, Some(&content)).unwrap();
    assert_eq!(e.read_blob(&sha).unwrap(), content);
}

#[test]
fn commit_moves_snapshot_pointers() {
    let mut e = engine();
    let a = artifact("a.txt", None, Some(b"hello\n"));
    let b = artifact("b.txt", None, Some(b"bee\n"));
    commit(&mut e, "r1", 1000, 1050, vec![a, b]);
    assert_eq!(e.fetch_snapshot("a.txt"), Some(hash_bytes(b"hello\n")));
    assert_eq!(e.fetch_snapshot("b.txt"), Some(hash_bytes(b"bee\n")));
    assert_eq!(e.fetch_snapshot("c.txt"), None);
    assert_eq!(e.read_blob(&hash_bytes(b"hello\n")).unwrap(), b"hello\n");
    let info = e.snapshot_info("a.txt").unwrap();
    assert_eq!(info.record_id, "r1");
    assert_eq!(info.sha, hash_bytes(b"hello\n"));

    let a2 = artifact("a.txt", Some(b"hello\n"), Some(b"hello\nworld\n"));
    commit(&mut e, "r2", 2000, 2050, vec![a2]);
    assert_eq!(
        e.fetch_snapshot("a.txt"),
        Some(hash_bytes(b"hello\nworld\n"))
    );
    assert_eq!(e.fetch_snapshot("b.txt"), Some(hash_bytes(b"bee\n")));
    assert_eq!(e.snapshot_info("a.txt").unwrap().record_id, "r2");

    let a3 = artifact("a.txt", Some(b"hello\nworld\n"), None);
    commit(&mut e, "r3", 3000, 3050, vec![a3]);
    assert_eq!(e.fetch_snapshot("a.txt"), None);
    assert!(e.snapshot_info("a.txt").is_none());
    assert_eq!(e.fetch_snapshot("b.txt"), Some(hash_bytes(b"bee\n")));
    assert_eq!(
        e.read_blob(&hash_bytes(b"hello\nworld\n")).unwrap(),
        b"hello\nworld\n"
    );
}

#[test]
fn last_file_record_of_a_commit_wins() {
    let mut e = engine();
    let first = artifact("a.txt", None, Some(b"one\n"));
    let second = artifact("a.txt", Some(b"one\n"), Some(b"two\n"));
    commit(&mut e, "r1", 1, 2, vec![first, second]);
    assert_eq!(e.fetch_snapshot("a.txt"), Some(hash_bytes(b"two\n")));
}

#[test]
fn same_content_is_one_blob() {
    let mut e = engine();
    let a = artifact("a.txt", None, Some(b"same\n"));
    let b = artifact("b.txt", None, Some(b"same\n"));
    assert_eq!(a.record.after_sha, b.record.after_sha);
    commit(&mut e, "r1", 1, 2, vec![a]);
    commit(&mut e, "r2", 3, 4, vec![b]);
    assert_eq!(e.fetch_snapshot("a.txt"), e.fetch_snapshot("b.txt"));
    let sha = e.fetch_snapshot("a.txt").unwrap();
    assert_eq!(e.read_blob(&sha).unwrap(), b"same\n");
}

#[test]
fn committed_record_reads_back() {
    let mut e = engine();
    let a = artifact("a.txt", None, Some(b"hello\n"));
    let files = vec![a.record.clone()];
    let m = meta("r1", 1000, 1300, Some("r0"), files.clone());
    let patch = compress_patch(&a.patch).unwrap();
    e.commit_record(&m, &patch, &[a]).unwrap();
    let back = e.read_record_meta("r1").unwrap();
    assert_eq!(back.record_id, "r1");
    assert_eq!(back.project_id, compute_project_id(ROOT));
    assert_eq!(back.started_at, 1000);
    assert_eq!(back.ended_at, 1300);
    assert_eq!(back.files, files);
    assert_eq!(back.stats, RecordStats { files: 1, lines_added: 1, lines_removed: 0 });
    assert_eq!(back.prev_record_id, Some("r0".to_string()));
    assert_eq!(back.tool_version, "0.1.0");
    assert_eq!(e.read_patch("r1").unwrap(), patch);
    assert_eq!(e.latest_record_id(), Some("r1".to_string()));
}

#[test]
fn unknown_record_is_not_found() {
    let e = engine();
    assert!(matches!(
        e.read_record_meta("nope"),
        Err(StorageError::RecordNotFound)
    ));
    assert!(matches!(e.read_patch("nope"), Err(StorageError::RecordNotFound)));
}

#[test]
fn duplicate_record_is_refused_and_changes_nothing() {
    let mut e = engine();
    commit(&mut e, "r1", 1, 2, vec![artifact("a.txt", None, Some(b"one\n"))]);
    let again = artifact("a.txt", Some(b"one\n"), Some(b"two\n"));
    let m = meta("r1", 5, 6, None, vec![again.record.clone()]);
    let r = e.commit_record(&m, b"other", &[again]);
    assert!(matches!(r, Err(StorageError::DuplicateRecord)));
    assert_eq!(e.fetch_snapshot("a.txt"), Some(hash_bytes(b"one\n")));
    assert_eq!(e.read_record_meta("r1").unwrap().ended_at, 2);
    assert!(!e.has_blob(&hash_bytes(b"two\n")));
    assert_eq!(e.timeline(None, None, None).len(), 1);
}

#[test]
fn span_that_does_not_fit_is_refused() {
    let mut e = engine();
    let a = artifact("a.txt", None, Some(b"one\n"));
    let m = meta("r1", i64::MIN, 1, None, vec![a.record.clone()]);
    let r = e.commit_record(&m, b"p", &[a]);
    assert!(matches!(r, Err(StorageError::TimeSpanOverflow)));
    assert_eq!(e.latest_record_id(), None);
    assert_eq!(e.fetch_snapshot("a.txt"), None);
    assert!(StoredRecord::new(&m, b"p").is_none());
}

#[test]
fn stored_record_carries_duration_and_patch_hash() {
    let m = meta("r1", 1000, 1250, None, Vec::new());
    let r = StoredRecord::new(&m, b"bytes").unwrap();
    assert_eq!(r.duration_ms, 250);
    assert_eq!(r.diff_hash, hash_bytes(b"bytes"));
    assert_eq!(r.patch, b"bytes");
    assert_eq!(r.meta.record_id, "r1");
}

#[test]
fn failed_commit_keeps_records_and_pointers() {
    let mut e = engine();
    let good = artifact("a.txt", None, Some(b"one\n"));
    let mut bad = artifact("b.txt", None, Some(b"two\n"));
    bad.record.after_sha = Some("x".to_string());
    let m = meta("r1", 1, 2, None, vec![good.record.clone(), bad.record.clone()]);
    let r = e.commit_record(&m, b"p", &[good, bad]);
    assert!(matches!(r, Err(StorageError::InvalidHash)));
    assert_eq!(e.latest_record_id(), None);
    assert_eq!(e.fetch_snapshot("a.txt"), None);
    assert!(e.has_blob(&hash_bytes(b"one\n")));
}

#[test]
fn file_records_change_the_index_by_their_kind() {
    let rec = |op: FileOp, after: Option<&str>| FileRecord {
        path: "p".to_string(),
        op,
        before_sha: None,
        after_sha: after.map(|s| s.to_string()),
        stats: FileStats { added: 0, removed: 0, chunks: 0 },
    };
    assert!(matches!(
        snapshot_change(&rec(FileOp::Added, Some("aa"))),
        SnapshotChange::Point { path, sha } if path == "p" && sha == "aa"
    ));
    assert!(matches!(
        snapshot_change(&rec(FileOp::Modified, Some("bb"))),
        SnapshotChange::Point { path, sha } if path == "p" && sha == "bb"
    ));
    assert!(matches!(
        snapshot_change(&rec(FileOp::Deleted, None)),
        SnapshotChange::Remove { path } if path == "p"
    ));
    assert!(matches!(
        snapshot_change(&rec(FileOp::Deleted, Some("cc"))),
        SnapshotChange::Remove { path } if path == "p"
    ));
    assert!(matches!(
        snapshot_change(&rec(FileOp::Added, None)),
        SnapshotChange::Keep
    ));
}

#[test]
fn latest_record_is_the_one_that_ends_last() {
    let mut e = engine();
    commit(&mut e, "r1", 0, 500, vec![artifact("a", None, Some(b"1\n"))]);
    assert_eq!(e.latest_record_id(), Some("r1".to_string()));
    commit(&mut e, "r2", 0, 900, vec![artifact("a", Some(b"1\n"), Some(b"2\n"))]);
    assert_eq!(e.latest_record_id(), Some("r2".to_string()));
    commit(&mut e, "r3", 0, 700, vec![artifact("a", Some(b"2\n"), Some(b"3\n"))]);
    assert_eq!(e.latest_record_id(), Some("r2".to_string()));
    commit(&mut e, "r4", 0, 900, vec![artifact("a", Some(b"3\n"), Some(b"4\n"))]);
    assert_eq!(e.latest_record_id(), Some("r4".to_string()));
}

#[test]
fn timeline_is_newest_first_within_bounds() {
    let mut e = engine();
    commit(&mut e, "r1", 100, 500, vec![artifact("a", None, Some(b"1\n2\n"))]);
    commit(&mut e, "r2", 800, 900, vec![artifact("a", Some(b"1\n2\n"), Some(b"2\n"))]);
    commit(&mut e, "r3", 600, 700, vec![artifact("b", None, Some(b"b\n"))]);
    commit(&mut e, "r4", 850, 900, vec![artifact("c", None, Some(b"c\n"))]);
    let ids = |v: Vec<meowdiff::models::TimelineEntry>| -> Vec<String> {
        v.into_iter().map(|t| t.record_id).collect()
    };
    assert_eq!(ids(e.timeline(None, None, None)), ["r4", "r2", "r3", "r1"]);
    assert_eq!(ids(e.timeline(Some(2), None, None)), ["r4", "r2"]);
    assert_eq!(ids(e.timeline(Some(0), None, None)), Vec::<String>::new());
    assert_eq!(ids(e.timeline(Some(10), None, None)), ["r4", "r2", "r3", "r1"]);
    assert_eq!(ids(e.timeline(None, Some(700), None)), ["r4", "r2", "r3"]);
    assert_eq!(ids(e.timeline(None, None, Some(700))), ["r3", "r1"]);
    assert_eq!(ids(e.timeline(None, Some(500), Some(700))), ["r3", "r1"]);
    assert_eq!(ids(e.timeline(None, Some(501), Some(699))), Vec::<String>::new());
    assert_eq!(ids(e.timeline(Some(1), Some(600), Some(900))), ["r4"]);

    let t = e.timeline(None, None, None);
    let first = &t[3];
    assert_eq!(first.record_id, "r1");
    assert_eq!(first.timestamp, 500);
    assert_eq!(first.files, 1);
    assert_eq!(first.lines_added, 2);
    assert_eq!(first.lines_removed, 0);
    assert_eq!(first.duration_ms, 400);
    assert_eq!(first.notes, None);
    assert_eq!(t[1].lines_removed, 1);
}

#[test]
fn registry_keeps_one_entry_per_project() {
    let old = vec![
        ProjectEntry { project_id: "aaa".to_string(), path: "/a".to_string(), last_seen: 1 },
        ProjectEntry { project_id: "bbb".to_string(), path: "/b".to_string(), last_seen: 2 },
        ProjectEntry { project_id: "aaa".to_string(), path: "/a2".to_string(), last_seen: 3 },
    ];
    let now = touch_registry(old, "aaa", "/a3", 9);
    assert_eq!(now.len(), 2);
    assert_eq!(now[0].project_id, "bbb");
    assert_eq!(now[1].project_id, "aaa");
    assert_eq!(now[1].path, "/a3");
    assert_eq!(now[1].last_seen, 9);
    let now = touch_registry(now, "ccc", "/c", 10);
    assert_eq!(now.len(), 3);
    assert_eq!(now[2].project_id, "ccc");
}

#[test]
fn open_refreshes_the_registry_entry() {
    let id = compute_project_id(ROOT);
    let old = vec![
        ProjectEntry { project_id: id.clone(), path: "/stale".to_string(), last_seen: 1 },
        ProjectEntry { project_id: "other".to_string(), path: "/o".to_string(), last_seen: 2 },
    ];
    let mut e = StorageEngine::open(ROOT, STORE, old, 50);
    let projects = e.list_projects();
    assert_eq!(projects.len(), 2);
    assert_eq!(projects[0].project_id, "other");
    assert_eq!(projects[1].project_id, id);
    assert_eq!(projects[1].path, ROOT);
    assert_eq!(projects[1].last_seen, 50);
    e.register_touch(60);
    let projects = e.list_projects();
    assert_eq!(projects.len(), 2);
    assert_eq!(projects[1].last_seen, 60);
    e.update_registry(70);
    assert_eq!(e.list_projects()[1].last_seen, 70);
}

#[test]
fn project_is_found_by_id() {
    let entries = vec![
        ProjectEntry { project_id: "aaa".to_string(), path: "/a".to_string(), last_seen: 1 },
        ProjectEntry { project_id: "bbb".to_string(), path: "/b".to_string(), last_seen: 2 },
        ProjectEntry { project_id: "aaa".to_string(), path: "/a2".to_string(), last_seen: 3 },
    ];
    let found = find_project_entry(&entries, "aaa").unwrap();
    assert_eq!(found.path, "/a");
    assert_eq!(found.last_seen, 1);
    assert_eq!(find_project_entry(&entries, "bbb").unwrap().path, "/b");
    assert!(find_project_entry(&entries, "ccc").is_none());
    assert!(find_project_entry(&[], "aaa").is_none());
}

#[test]
fn storage_errors_have_messages() {
    assert_eq!(
        StorageError::MissingContent.message(),
        "blob content missing while attempting to persist new blob"
    );
    assert_eq!(StorageError::RecordNotFound.message(), "record not found");
    assert_eq!(
        StorageError::CorruptBlob("bad".to_string()).message(),
        "blob is corrupt: bad"
    );
}

#[test]
fn stored_blobs_hash_to_their_names() {
    let mut e = engine();
    let a = artifact("a.txt", None, Some(b"alpha\n"));
    let b = artifact("b.txt", Some(b"old\n"), Some(b"new\n"));
    commit(&mut e, "r1", 1, 2, vec![a, b]);
    for content in [&b"alpha\n"[..], &b"old\n"[..], &b"new\n"[..]] {
        let sha = hash_bytes(content);
        assert_eq!(hash_bytes(&e.read_blob(&sha).unwrap()), sha);
    }
}

#[test]
fn plan_lists_blobs_row_and_changes_in_order() {
    let a = artifact("a.txt", Some(b"old\n"), Some(b"new\n"));
    let b = artifact("b.txt", None, Some(b"bee\n"));
    let c = artifact("c.txt", Some(b"gone\n"), None);
    let arts = vec![a, b, c];
    let files: Vec<FileRecord> = arts.iter().map(|x| x.record.clone()).collect();
    let m = meta("r1", 100, 350, None, files);
    let plan = plan_commit(&m, b"patch", &arts).unwrap();
    let hashes: Vec<&str> = plan.blobs.iter().map(|(sha, _)| *sha).collect();
    assert_eq!(
        hashes,
        [
            hash_bytes(b"old\n"),
            hash_bytes(b"new\n"),
            hash_bytes(b"bee\n"),
            hash_bytes(b"gone\n"),
        ]
    );
    let contents: Vec<&[u8]> = plan.blobs.iter().map(|(_, blob)| blob.as_slice()).collect();
    assert_eq!(contents, [&b"old\n"[..], &b"new\n"[..], &b"bee\n"[..], &b"gone\n"[..]]);
    assert_eq!(plan.record.duration_ms, 250);
    assert_eq!(plan.record.diff_hash, hash_bytes(b"patch"));
    assert_eq!(plan.record.meta.record_id, "r1");
    assert_eq!(plan.changes.len(), 3);
    assert!(matches!(
        &plan.changes[0],
        SnapshotChange::Point { path, sha } if path == "a.txt" && *sha == hash_bytes(b"new\n")
    ));
    assert!(matches!(
        &plan.changes[1],
        SnapshotChange::Point { path, sha } if path == "b.txt" && *sha == hash_bytes(b"bee\n")
    ));
    assert!(matches!(
        &plan.changes[2],
        SnapshotChange::Remove { path } if path == "c.txt"
    ));
    assert_eq!(blobs_to_ensure(&arts).len(), 4);
    assert_eq!(snapshot_changes(&m.files).len(), 3);
    let bad = meta("r2", i64::MAX, i64::MIN, None, Vec::new());
    assert!(plan_commit(&bad, b"", &[]).is_none());
}

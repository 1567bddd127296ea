use meowdiff::cli::{
    classify_patch_line, colorize_patch, decide_stop, filter_patch_for_file, is_watching,
    restore_action, watch_mode, LineKind, RestoreAction, StopDecision, WatchMode,
};
use meowdiff::models::{FileOp, FileRecord, FileStats};
use meowdiff::sql::{timeline_query, SCHEMA, SELECT_LATEST};
use meowdiff::storage::{pack_blob, unpack_blob, StorageError};

const PATCH: &str = "--- a/one.txt\n+++ b/one.txt\n@@ -1 +1 @@\n-x\n+y\n\n--- /dev/null\n+++ b/two.txt\n@@ -0,0 +1 @@\n+z\n\nBinary file change: img.png\n\n";

fn reference(patch: &str, file: &str) -> String {
    let a = format!("a/{file}");
    let b = format!("b/{file}");
    patch
        .split("\n\n")
        .filter(|s| s.contains(&a) || s.contains(&b))
        .collect::<Vec<_>>()
        .join("\n\n")
}

#[test]
fn patch_is_filtered_by_file() {
    assert_eq!(
        filter_patch_for_file(PATCH, "one.txt"),
        "--- a/one.txt\n+++ b/one.txt\n@@ -1 +1 @@\n-x\n+y"
    );
    assert_eq!(
        filter_patch_for_file(PATCH, "two.txt"),
        "--- /dev/null\n+++ b/two.txt\n@@ -0,0 +1 @@\n+z"
    );
    assert_eq!(filter_patch_for_file(PATCH, "img.png"), "");
    assert_eq!(filter_patch_for_file(PATCH, "three.txt"), "");
    assert_eq!(filter_patch_for_file("", "one.txt"), "");
}

#[test]
fn kept_sections_are_joined_by_empty_lines() {
    assert_eq!(
        filter_patch_for_file(PATCH, ""),
        "--- a/one.txt\n+++ b/one.txt\n@@ -1 +1 @@\n-x\n+y\n\n--- /dev/null\n+++ b/two.txt\n@@ -0,0 +1 @@\n+z"
    );
    assert_eq!(
        filter_patch_for_file(PATCH, "t"),
        "--- /dev/null\n+++ b/two.txt\n@@ -0,0 +1 @@\n+z"
    );
    assert_eq!(filter_patch_for_file(PATCH, ""), reference(PATCH, ""));
}

#[test]
fn filter_splits_as_std_does() {
    let patches = [
        "a/x\n\n\nb/x\n\n\n\na/x",
        "\n\na/x",
        "a/x\n\n",
        "\n\n",
        "\n\n\n",
        "a/xb/x",
        "q\n\na/x\n\nq\n\nb/x\n\nq",
    ];
    for patch in patches {
        for file in ["x", "y", ""] {
            assert_eq!(filter_patch_for_file(patch, file), reference(patch, file));
        }
    }
}

#[test]
fn daemon_is_started_only_from_outside() {
    assert_eq!(watch_mode(true, false), WatchMode::Daemon);
    assert_eq!(watch_mode(true, true), WatchMode::Foreground);
    assert_eq!(watch_mode(false, false), WatchMode::Foreground);
    assert_eq!(watch_mode(false, true), WatchMode::Foreground);
}

#[test]
fn stop_asks_a_live_owner_and_spares_a_stale_lock() {
    assert_eq!(decide_stop(None, false, false), StopDecision::NoWatcher);
    assert_eq!(decide_stop(None, true, true), StopDecision::NoWatcher);
    assert_eq!(decide_stop(Some(7), true, false), StopDecision::Terminate(7));
    assert_eq!(decide_stop(Some(7), true, true), StopDecision::Terminate(7));
    assert_eq!(decide_stop(Some(7), false, false), StopDecision::KeepStale(7));
    assert_eq!(decide_stop(Some(7), false, true), StopDecision::ClearStale(7));
    assert!(is_watching(Some(1), true));
    assert!(!is_watching(Some(1), false));
    assert!(!is_watching(None, true));
}

#[test]
fn restore_writes_after_content_or_removes() {
    let mut file = FileRecord {
        path: "d/a.txt".to_string(),
        op: FileOp::Modified,
        before_sha: Some("aa".to_string()),
        after_sha: Some("bb".to_string()),
        stats: FileStats { added: 0, removed: 0, chunks: 0 },
    };
    match restore_action(&file) {
        RestoreAction::Write { path, sha } => {
            assert_eq!(path, "d/a.txt");
            assert_eq!(sha, "bb");
        }
        other => panic!("expected a write, got {:?}", other),
    }
    file.op = FileOp::Deleted;
    file.after_sha = None;
    match restore_action(&file) {
        RestoreAction::Remove { path } => assert_eq!(path, "d/a.txt"),
        other => panic!("expected a removal, got {:?}", other),
    }
}

#[test]
fn patch_lines_are_told_apart() {
    assert_eq!(classify_patch_line("+added"), LineKind::Added);
    assert_eq!(classify_patch_line("+"), LineKind::Added);
    assert_eq!(classify_patch_line("++x"), LineKind::Added);
    assert_eq!(classify_patch_line("+++ b/file"), LineKind::Plain);
    assert_eq!(classify_patch_line("-removed"), LineKind::Removed);
    assert_eq!(classify_patch_line("--- a/file"), LineKind::Plain);
    assert_eq!(classify_patch_line(" context"), LineKind::Plain);
    assert_eq!(classify_patch_line("@@ -1 +1 @@"), LineKind::Plain);
    assert_eq!(classify_patch_line(""), LineKind::Plain);
}

#[test]
fn timeline_query_names_its_bounds() {
    let base = "SELECT record_id, ts_end, stats_json, duration_ms FROM records";
    let q = timeline_query(None, None, None);
    assert_eq!(q.sql, format!("{base} ORDER BY ts_end DESC, rowid DESC"));
    assert!(q.bounds.is_empty());
    assert_eq!(q.limit, None);
    let q = timeline_query(Some(5), Some(10), Some(20));
    assert_eq!(
        q.sql,
        format!("{base} WHERE ts_end >= ? AND ts_end <= ? ORDER BY ts_end DESC, rowid DESC LIMIT ?")
    );
    assert_eq!(q.bounds, [10, 20]);
    assert_eq!(q.limit, Some(5));
    let q = timeline_query(None, Some(10), None);
    assert_eq!(q.sql, format!("{base} WHERE ts_end >= ? ORDER BY ts_end DESC, rowid DESC"));
    assert_eq!(q.bounds, [10]);
    let q = timeline_query(Some(0), None, Some(-3));
    assert_eq!(
        q.sql,
        format!("{base} WHERE ts_end <= ? ORDER BY ts_end DESC, rowid DESC LIMIT ?")
    );
    assert_eq!(q.bounds, [-3]);
    assert_eq!(q.limit, Some(0));
    let q = timeline_query(Some(usize::MAX), None, None);
    assert_eq!(q.limit, Some(i64::MAX));
}

#[test]
fn statements_name_both_tables() {
    assert!(SCHEMA.contains("CREATE TABLE IF NOT EXISTS records"));
    assert!(SCHEMA.contains("CREATE TABLE IF NOT EXISTS latest_snapshots"));
    assert_eq!(
        SELECT_LATEST,
        "SELECT record_id FROM records ORDER BY ts_end DESC, rowid DESC LIMIT 1"
    );
}

#[test]
fn blob_survives_packing() {
    let content = vec![7u8; 10_000];
    let frame = pack_blob(&content).unwrap();
    assert!(frame.len() < content.len());
    assert_eq!(unpack_blob(&frame).unwrap(), content);
    assert!(matches!(
        unpack_blob(b"no frame"),
        Err(StorageError::CorruptBlob(_))
    ));
}

fn colorize_reference(patch: &str) -> String {
    let mut result = String::new();
    let lines: Vec<&str> = patch.lines().collect();
    for (idx, &line) in lines.iter().enumerate() {
        let colored = if line.starts_with('+') && !line.starts_with("+++") {
            nu_ansi_term::Color::Green.paint(line).to_string()
        } else if line.starts_with('-') && !line.starts_with("---") {
            nu_ansi_term::Color::Red.paint(line).to_string()
        } else {
            line.to_string()
        };
        result.push_str(&colored);
        if idx != lines.len() - 1 || patch.ends_with('\n') {
            result.push('\n');
        }
    }
    result
}

#[test]
fn added_lines_are_green_and_removed_lines_red() {
    assert_eq!(
        colorize_patch("--- a/x\n+++ b/x\n@@ -1 +1 @@\n-old\n+new\n same\n"),
        "--- a/x\n+++ b/x\n@@ -1 +1 @@\n\u{1b}[31m-old\u{1b}[0m\n\u{1b}[32m+new\u{1b}[0m\n same\n"
    );
    assert_eq!(colorize_patch("+x"), "\u{1b}[32m+x\u{1b}[0m");
    assert_eq!(colorize_patch(""), "");
    assert_eq!(colorize_patch("\n"), "\n");
}

#[test]
fn coloring_keeps_lines_as_std_splits_them() {
    let patches = [
        "",
        "\n",
        "+a",
        "+a\n",
        "+a\r\n-b\r\n",
        "+a\r",
        "-a\r\nb\r",
        "\r\n",
        "\r",
        "x\n\n+y\n\n",
        "+++ h\n--- h\n++\n--\n",
        "a\n\n",
    ];
    for patch in patches {
        assert_eq!(colorize_patch(patch), colorize_reference(patch), "{:?}", patch);
    }
}

use meowdiff::models::{FileOp, FileRecord, FileStats, RecordStats};
use meowdiff::pipeline::{
    aggregate_stats, binary_patch, build_file_artifact, build_patch, checked_aggregate_stats,
    compress_patch, decompress_patch, patch_from_bytes, FileInput, PipelineError,
};
use meowdiff::textdiff::{count_line_changes, count_lines, ChangeTag, LineChange};
use meowdiff::util::hash_bytes;

fn input(path: &str, before: Option<&[u8]>, after: Option<&[u8]>) -> FileInput {
    FileInput {
        path: path.to_string(),
        before: before.map(|b| b.to_vec()),
        after: after.map(|b| b.to_vec()),
    }
}

fn record(path: &str, added: usize, removed: usize) -> FileRecord {
    FileRecord {
        path: path.to_string(),
        op: FileOp::Modified,
        before_sha: Some("aa".to_string()),
        after_sha: Some("bb".to_string()),
        stats: FileStats { added, removed, chunks: 1 },
    }
}

#[test]
fn added_file_has_one_line() {
    let artifact = build_file_artifact(input("a.txt", None, Some(b"hello\n")))
        .unwrap()
        .unwrap();
    assert_eq!(artifact.record.path, "a.txt");
    assert_eq!(artifact.record.op, FileOp::Added);
    assert_eq!(artifact.record.before_sha, None);
    assert_eq!(artifact.record.after_sha, Some(hash_bytes(b"hello\n")));
    assert_eq!(artifact.record.stats.added, 1);
    assert_eq!(artifact.record.stats.removed, 0);
    assert_eq!(artifact.record.stats.chunks, 1);
    assert_eq!(artifact.before_blob, None);
    assert_eq!(artifact.after_blob, Some(b"hello\n".to_vec()));
    assert_eq!(
        artifact.patch,
        "--- /dev/null\n+++ b/a.txt\n@@ -0,0 +1 @@\n+hello\n"
    );
}

#[test]
fn modified_file_adds_world() {
    let artifact = build_file_artifact(input(
        "a.txt",
        Some(b"hello\n"),
        Some(b"hello\nworld\n"),
    ))
    .unwrap()
    .unwrap();
    assert_eq!(artifact.record.op, FileOp::Modified);
    assert_eq!(artifact.record.before_sha, Some(hash_bytes(b"hello\n")));
    assert_eq!(artifact.record.after_sha, Some(hash_bytes(b"hello\nworld\n")));
    assert_eq!(artifact.record.stats.added, 1);
    assert_eq!(artifact.record.stats.removed, 0);
    assert!(artifact.patch.contains("+world"));
    assert!(artifact.patch.starts_with("--- a/a.txt\n+++ b/a.txt\n"));
    assert_eq!(
        artifact.patch,
        "--- a/a.txt\n+++ b/a.txt\n@@ -1 +1,2 @@\n hello\n+world\n"
    );
}

#[test]
fn deleted_file_has_no_after_hash() {
    let artifact = build_file_artifact(input("a.txt", Some(b"hello\nworld\n"), None))
        .unwrap()
        .unwrap();
    assert_eq!(artifact.record.op, FileOp::Deleted);
    assert_eq!(artifact.record.after_sha, None);
    assert_eq!(
        artifact.record.before_sha,
        Some(hash_bytes(b"hello\nworld\n"))
    );
    assert_eq!(artifact.record.stats.added, 0);
    assert_eq!(artifact.record.stats.removed, 2);
    assert_eq!(artifact.after_blob, None);
    assert_eq!(
        artifact.patch,
        "--- a/a.txt\n+++ /dev/null\n@@ -1,2 +0,0 @@\n-hello\n-world\n"
    );
}

#[test]
fn identical_buffers_are_no_change() {
    let r = build_file_artifact(input("a.txt", Some(b"same\n"), Some(b"same\n"))).unwrap();
    assert!(r.is_none());
    let r = build_file_artifact(input("a.txt", Some(b""), Some(b""))).unwrap();
    assert!(r.is_none());
}

#[test]
fn absent_on_both_sides_is_no_change() {
    let r = build_file_artifact(input("a.txt", None, None)).unwrap();
    assert!(r.is_none());
}

#[test]
fn binary_content_gets_placeholder() {
    let artifact = build_file_artifact(input("img.bin", None, Some(&[0xff, 0xfe, 0x00, 0x80])))
        .unwrap()
        .unwrap();
    assert_eq!(artifact.record.op, FileOp::Added);
    assert_eq!(artifact.patch, "Binary file change: img.bin\n");
    assert_eq!(
        artifact.record.stats,
        FileStats { added: 0, removed: 0, chunks: 1 }
    );
}

#[test]
fn binary_on_either_side_gets_placeholder() {
    let artifact = build_file_artifact(input("f", Some(&[0xc3, 0x28]), Some(b"text\n")))
        .unwrap()
        .unwrap();
    assert_eq!(artifact.record.op, FileOp::Modified);
    assert_eq!(artifact.patch, "Binary file change: f\n");
    assert_eq!(artifact.record.stats.added, 0);
    assert_eq!(artifact.record.stats.removed, 0);
    assert_eq!(artifact.record.stats.chunks, 1);
    let artifact = build_file_artifact(input("f", Some(b"text\n"), Some(&[0x80])))
        .unwrap()
        .unwrap();
    assert_eq!(artifact.patch, "Binary file change: f\n");
    let artifact = build_file_artifact(input("f", Some(&[0x80]), None))
        .unwrap()
        .unwrap();
    assert_eq!(artifact.record.op, FileOp::Deleted);
    assert_eq!(artifact.patch, "Binary file change: f\n");
}

#[test]
fn binary_patch_is_fixed() {
    let (patch, stats) = binary_patch("dir/x.png");
    assert_eq!(patch, "Binary file change: dir/x.png\n");
    assert_eq!(stats, FileStats { added: 0, removed: 0, chunks: 1 });
}

#[test]
fn added_empty_file_has_empty_patch() {
    let artifact = build_file_artifact(input("empty", None, Some(b"")))
        .unwrap()
        .unwrap();
    assert_eq!(artifact.record.op, FileOp::Added);
    assert_eq!(artifact.patch, "");
    assert_eq!(
        artifact.record.stats,
        FileStats { added: 0, removed: 0, chunks: 0 }
    );
}

#[test]
fn build_patch_of_nothing_is_empty() {
    let (patch, stats) = build_patch("a", None, None).unwrap();
    assert_eq!(patch, "");
    assert_eq!(stats, FileStats { added: 0, removed: 0, chunks: 0 });
}

#[test]
fn build_patch_counts_replaced_lines() {
    let before = b"one\ntwo\nthree\n".to_vec();
    let after = b"one\n2\nthree\nfour\n".to_vec();
    let (patch, stats) = build_patch("n.txt", Some(&before), Some(&after)).unwrap();
    assert_eq!(stats.added, 2);
    assert_eq!(stats.removed, 1);
    assert!(patch.contains("-two\n"));
    assert!(patch.contains("+2\n"));
    assert!(patch.contains("+four\n"));
}

#[test]
fn missing_final_newline_is_hinted() {
    let artifact = build_file_artifact(input("a", None, Some(b"x")))
        .unwrap()
        .unwrap();
    assert_eq!(artifact.record.stats.added, 1);
    assert_eq!(
        artifact.patch,
        "--- /dev/null\n+++ b/a\n@@ -0,0 +1 @@\n+x\n\\ No newline at end of file\n"
    );
}

#[test]
fn lines_are_counted_as_std_counts_them() {
    for text in ["", "a", "a\n", "a\nb", "a\nb\n", "\n", "\n\n", "a\r\nb\r\n", "a\rb"] {
        assert_eq!(count_lines(text), text.lines().count(), "{:?}", text);
    }
    assert_eq!(count_lines("a\nb\nc"), 3);
    assert_eq!(count_lines(""), 0);
}

#[test]
fn line_changes_are_counted_by_tag() {
    let changes = vec![
        LineChange { tag: ChangeTag::Equal, text: "a\n".to_string() },
        LineChange { tag: ChangeTag::Insert, text: "b\n".to_string() },
        LineChange { tag: ChangeTag::Insert, text: "c".to_string() },
        LineChange { tag: ChangeTag::Delete, text: "d\n".to_string() },
    ];
    assert_eq!(count_line_changes(&changes), (Some(2), Some(1)));
    assert_eq!(count_line_changes(&Vec::new()), (Some(0), Some(0)));
}

#[test]
fn stats_are_summed() {
    let files = vec![record("a", 1, 2), record("b", 10, 20), record("c", 0, 0)];
    assert_eq!(
        aggregate_stats(&files),
        RecordStats { files: 3, lines_added: 11, lines_removed: 22 }
    );
    assert_eq!(
        aggregate_stats(&[]),
        RecordStats { files: 0, lines_added: 0, lines_removed: 0 }
    );
    assert_eq!(
        checked_aggregate_stats(&files),
        Some(RecordStats { files: 3, lines_added: 11, lines_removed: 22 })
    );
}

#[test]
fn stats_that_do_not_fit_are_refused() {
    let files = vec![record("a", usize::MAX, 0), record("b", 1, 0)];
    assert_eq!(checked_aggregate_stats(&files), None);
    let files = vec![record("a", 0, usize::MAX), record("b", 0, 1)];
    assert_eq!(checked_aggregate_stats(&files), None);
}

#[test]
fn patch_survives_compression() {
    let patch = "--- a/x\n+++ b/x\n@@ -1 +1 @@\n-old\n+new \u{00e9}\n";
    let packed = compress_patch(patch).unwrap();
    assert_ne!(packed, patch.as_bytes());
    assert_eq!(&packed[..4], &[0x28, 0xb5, 0x2f, 0xfd]);
    assert_eq!(decompress_patch(&packed).unwrap(), patch);
    let packed = compress_patch("").unwrap();
    assert_eq!(decompress_patch(&packed).unwrap(), "");
}

#[test]
fn garbage_does_not_decompress() {
    let r = decompress_patch(b"this is not a frame");
    assert!(matches!(r, Err(PipelineError::Decompress(_))));
}

#[test]
fn packed_bytes_that_are_not_text_are_refused() {
    let packed = zstd::stream::encode_all(&[0xffu8, 0xfe][..], 0).unwrap();
    let r = decompress_patch(&packed);
    assert!(matches!(r, Err(PipelineError::NotText)));
    assert!(matches!(patch_from_bytes(&[0xc3, 0x28]), Err(PipelineError::NotText)));
    assert_eq!(patch_from_bytes("h\u{00e9}".as_bytes()).unwrap(), "h\u{00e9}");
}

#[test]
fn errors_have_messages() {
    assert_eq!(
        PipelineError::NotText.message(),
        "decompressed patch is not valid text"
    );
    assert_eq!(
        PipelineError::Compress("x".to_string()).message(),
        "failed to compress: x"
    );
}

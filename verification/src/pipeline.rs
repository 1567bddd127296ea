//! From a file's bytes before and after a change to its record, its patch
//! and the blobs to keep.

use vstd::prelude::*;
use vstd::string::{StringExecFns, StringSliceAdditionalSpecFns};
use vstd::utf8::{decode_utf8, encode_utf8, valid_utf8};

use crate::models::{records_view, FileOp, FileRecord, FileRecordView, FileStats, RecordStats};
use crate::textdiff::{
    count_line_changes, diff_changes, diff_lines, diff_op_count, diff_unified,
    lemma_tagged_lines_bound, tagged_lines, ChangeTag,
};
use crate::util::{content_hash, has_shard, hash_bytes};

verus! {

/// What went wrong while a patch was built, packed or unpacked.
#[derive(Debug)]
pub enum PipelineError {
    /// The compressor reported an error; its message is kept.
    Compress(String),
    /// The bytes are not a compressed frame, or the decompressor failed.
    Decompress(String),
    /// The bytes decompress, but not to text.
    NotText,
}

impl PipelineError {
    /// The sentence that tells the user of the error.
    pub open spec fn message_text(&self) -> Seq<char> {
        match self {
            PipelineError::Compress(detail) => "failed to compress: "@ + detail@,
            PipelineError::Decompress(detail) => "failed to decompress: "@ + detail@,
            PipelineError::NotText => "decompressed patch is not valid text"@,
        }
    }

    /// A sentence for the user.
    pub fn message(&self) -> (s: String)
        ensures
            s@ == self.message_text(),
    {
        match self {
            PipelineError::Compress(detail) => "failed to compress: ".to_owned().concat(
                detail.as_str(),
            ),
            PipelineError::Decompress(detail) => "failed to decompress: ".to_owned().concat(
                detail.as_str(),
            ),
            PipelineError::NotText => "decompressed patch is not valid text".to_owned(),
        }
    }
}

/// A file's content on both sides of a change; `None` where the file does not
/// exist.
#[derive(Debug)]
pub struct FileInput {
    pub path: String,
    pub before: Option<Vec<u8>>,
    pub after: Option<Vec<u8>>,
}

/// What one changed file contributes to a record.
#[derive(Debug)]
pub struct FileArtifact {
    pub record: FileRecord,
    pub patch: String,
    pub before_blob: Option<Vec<u8>>,
    pub after_blob: Option<Vec<u8>>,
}

/// The mathematical content of a [`FileArtifact`].
pub struct FileArtifactView {
    pub record: FileRecordView,
    pub patch: Seq<char>,
    pub before_blob: Option<Seq<u8>>,
    pub after_blob: Option<Seq<u8>>,
}

/// The artifacts of one batch with their totals and the batch's time span, in
/// milliseconds since the epoch.
#[derive(Debug)]
pub struct RecordArtifact {
    pub files: Vec<FileArtifact>,
    pub stats: RecordStats,
    pub started_at: i64,
    pub ended_at: i64,
}

/// The bytes an optional buffer holds, if any.
pub open spec fn opt_bytes_view(o: Option<Vec<u8>>) -> Option<Seq<u8>> {
    match o {
        Some(b) => Some(b@),
        None => None,
    }
}

impl View for FileArtifact {
    type V = FileArtifactView;

    open spec fn view(&self) -> FileArtifactView {
        FileArtifactView {
            record: self.record@,
            patch: self.patch@,
            before_blob: opt_bytes_view(self.before_blob),
            after_blob: opt_bytes_view(self.after_blob),
        }
    }
}

/// A change is none at all where the file exists on neither side, or on both
/// with one content hash.
pub open spec fn is_noop(before: Option<Seq<u8>>, after: Option<Seq<u8>>) -> bool {
    match (before, after) {
        (None, None) => true,
        (Some(b), Some(a)) => content_hash(b) == content_hash(a),
        _ => false,
    }
}

/// The operation that the presence of each side stands for.
pub open spec fn op_of(before: Option<Seq<u8>>, after: Option<Seq<u8>>) -> FileOp {
    if before is None {
        FileOp::Added
    } else if after is None {
        FileOp::Deleted
    } else {
        FileOp::Modified
    }
}

/// The content hash of a side that exists.
pub open spec fn side_hash(side: Option<Seq<u8>>) -> Option<Seq<char>> {
    match side {
        Some(b) => Some(content_hash(b)),
        None => None,
    }
}

/// A change is binary where a side that exists is not valid UTF-8.
pub open spec fn is_binary_change(before: Option<Seq<u8>>, after: Option<Seq<u8>>) -> bool {
    ||| (before matches Some(b) && !valid_utf8(b))
    ||| (after matches Some(a) && !valid_utf8(a))
}

/// The text of a side: empty where the file does not exist.
pub open spec fn side_text(side: Option<Seq<u8>>) -> Seq<char> {
    match side {
        Some(b) => decode_utf8(b),
        None => Seq::empty(),
    }
}

/// The label of a side in a patch header: the path behind `prefix`, or
/// `/dev/null` where the file does not exist.
pub open spec fn side_label(prefix: Seq<char>, path: Seq<char>, side: Option<Seq<u8>>) -> Seq<
    char,
> {
    if side is Some {
        prefix + path
    } else {
        "/dev/null"@
    }
}

/// The patch that stands for a binary change.
pub open spec fn binary_patch_text(path: Seq<char>) -> Seq<char> {
    "Binary file change: "@ + path + "\n"@
}

/// The patch of a change.
pub open spec fn patch_text(
    path: Seq<char>,
    before: Option<Seq<u8>>,
    after: Option<Seq<u8>>,
) -> Seq<char> {
    if before is None && after is None {
        Seq::empty()
    } else if is_binary_change(before, after) {
        binary_patch_text(path)
    } else {
        diff_unified(
            side_text(before),
            side_text(after),
            side_label("a/"@, path, before),
            side_label("b/"@, path, after),
        )
    }
}

/// The lines a change adds: none for a binary change or a deletion.
pub open spec fn lines_added(before: Option<Seq<u8>>, after: Option<Seq<u8>>) -> nat {
    if after is None || is_binary_change(before, after) {
        0
    } else {
        tagged_lines(diff_changes(side_text(before), side_text(after)), ChangeTag::Insert)
    }
}

/// The lines a change removes: none for a binary change or an addition.
pub open spec fn lines_removed(before: Option<Seq<u8>>, after: Option<Seq<u8>>) -> nat {
    if before is None || is_binary_change(before, after) {
        0
    } else {
        tagged_lines(diff_changes(side_text(before), side_text(after)), ChangeTag::Delete)
    }
}

/// The number of diff chunks of a change: one for a binary change.
pub open spec fn chunk_count(before: Option<Seq<u8>>, after: Option<Seq<u8>>) -> nat {
    if before is None && after is None {
        0
    } else if is_binary_change(before, after) {
        1
    } else {
        diff_op_count(side_text(before), side_text(after))
    }
}

/// Whether the line counts of a change fit in `usize`.
pub open spec fn stats_fit(before: Option<Seq<u8>>, after: Option<Seq<u8>>) -> bool {
    lines_added(before, after) <= usize::MAX && lines_removed(before, after) <= usize::MAX
}

/// The statistics of a change whose counts fit.
pub open spec fn stats_of(before: Option<Seq<u8>>, after: Option<Seq<u8>>) -> FileStats {
    FileStats {
        added: lines_added(before, after) as usize,
        removed: lines_removed(before, after) as usize,
        chunks: chunk_count(before, after) as usize,
    }
}

/// What a change to `path` contributes to a record.
pub open spec fn artifact_of(
    path: Seq<char>,
    before: Option<Seq<u8>>,
    after: Option<Seq<u8>>,
) -> FileArtifactView {
    FileArtifactView {
        record: FileRecordView {
            path,
            op: op_of(before, after),
            before_sha: side_hash(before),
            after_sha: side_hash(after),
            stats: stats_of(before, after),
        },
        patch: patch_text(path, before, after),
        before_blob: before,
        after_blob: after,
    }
}

/// Whether the hashes of an artifact can locate blobs, and each side that
/// has a blob has the content hash of that blob.
pub open spec fn sides_hashed(a: FileArtifactView) -> bool {
    &&& a.record.before_sha matches Some(h) ==> has_shard(h) && a.before_blob is Some
    &&& a.record.after_sha matches Some(h) ==> has_shard(h) && a.after_blob is Some
    &&& a.before_blob matches Some(b) ==> a.record.before_sha == Some(content_hash(b))
    &&& a.after_blob matches Some(b) ==> a.record.after_sha == Some(content_hash(b))
}

/// The file records of some artifacts.
pub open spec fn records_of(artifacts: Seq<FileArtifactView>) -> Seq<FileRecordView> {
    artifacts.map_values(|a: FileArtifactView| a.record)
}

/// `std::str::from_utf8`: the text that `bytes` encode, where they are valid
/// UTF-8, and nothing where they are not.
#[verifier::external_body]
pub(crate) fn text_of(bytes: &[u8]) -> (r: Option<&str>)
    ensures
        r is Some <==> valid_utf8(bytes@),
        r matches Some(s) ==> s@ == decode_utf8(bytes@),
{
    std::str::from_utf8(bytes).ok()
}

/// The placeholder patch and statistics of a binary change.
pub fn binary_patch(path: &str) -> (r: (String, FileStats))
    ensures
        r.0@ == binary_patch_text(path@),
        r.1 == (FileStats { added: 0, removed: 0, chunks: 1 }),
{
    let text = "Binary file change: ".to_owned().concat(path).concat("\n");
    assert(text@ == "Binary file change: "@ + path@ + "\n"@);
    (text, FileStats { added: 0, removed: 0, chunks: 1 })
}

/// The label of a side that exists: `prefix` and the path.
fn label(prefix: &str, path: &str) -> (s: String)
    ensures
        s@ == prefix@ + path@,
{
    prefix.to_owned().concat(path)
}

/// Builds the patch and the statistics of a change: a unified diff of the two
/// texts, or the binary placeholder where a side is not text. It never
/// fails: a diff has no more lines than its texts have bytes.
pub fn build_patch(path: &str, before: Option<&Vec<u8>>, after: Option<&Vec<u8>>) -> (r: Result<
    (String, FileStats),
    PipelineError,
>)
    ensures
        ({
            let b = match before {
                Some(v) => Some(v@),
                None => None,
            };
            let a = match after {
                Some(v) => Some(v@),
                None => None,
            };
            match r {
                Ok((patch, stats)) => {
                    &&& stats_fit(b, a)
                    &&& patch@ == patch_text(path@, b, a)
                    &&& stats == stats_of(b, a)
                },
                Err(_) => false,
            }
        }),
{
    let old_text: &str = match before {
        Some(bytes) => match text_of(bytes.as_slice()) {
            Some(text) => text,
            None => {
                return Ok(binary_patch(path));
            },
        },
        None => "",
    };
    let new_text: &str = match after {
        Some(bytes) => match text_of(bytes.as_slice()) {
            Some(text) => text,
            None => {
                return Ok(binary_patch(path));
            },
        },
        None => "",
    };
    proof {
        reveal_strlit("");
        assert(old_text@ == side_text(
            match before {
                Some(v) => Some(v@),
                None => None,
            },
        ));
        assert(new_text@ == side_text(
            match after {
                Some(v) => Some(v@),
                None => None,
            },
        ));
    }
    if before.is_none() && after.is_none() {
        return Ok((String::new(), FileStats { added: 0, removed: 0, chunks: 0 }));
    }
    let from = if before.is_some() {
        label("a/", path)
    } else {
        "/dev/null".to_owned()
    };
    let to = if after.is_some() {
        label("b/", path)
    } else {
        "/dev/null".to_owned()
    };
    let old_size = old_text.as_bytes().len();
    let new_size = new_text.as_bytes().len();
    let diff = diff_lines(old_text, new_text, from.as_str(), to.as_str());
    let (added, removed) = count_line_changes(&diff.changes);
    proof {
        let changes = diff_changes(old_text@, new_text@);
        lemma_tagged_lines_bound(changes, ChangeTag::Insert);
        lemma_tagged_lines_bound(changes, ChangeTag::Delete);
        assert(tagged_lines(changes, ChangeTag::Insert) <= new_size);
        assert(tagged_lines(changes, ChangeTag::Delete) <= old_size);
    }
    let added = if after.is_none() {
        0
    } else {
        added.unwrap()
    };
    let removed = if before.is_none() {
        0
    } else {
        removed.unwrap()
    };
    Ok((diff.patch, FileStats { added, removed, chunks: diff.ops }))
}

/// Whether two buffers hold the same bytes.
fn same_bytes(a: &Vec<u8>, b: &Vec<u8>) -> (r: bool)
    ensures
        r == (a@ == b@),
{
    if a.len() != b.len() {
        return false;
    }
    let mut i: usize = 0;
    while i < a.len()
        invariant
            a.len() == b.len(),
            i <= a.len(),
            a@.take(i as int) == b@.take(i as int),
        decreases a.len() - i,
    {
        if a[i] != b[i] {
            return false;
        }
        assert(a@.take(i + 1) == a@.take(i as int).push(a@[i as int]));
        assert(b@.take(i + 1) == b@.take(i as int).push(b@[i as int]));
        i = i + 1;
    }
    assert(a@.take(a.len() as int) == a@);
    assert(b@.take(b.len() as int) == b@);
    true
}

/// Identical buffers are no change.
pub proof fn lemma_identical_is_noop(content: Seq<u8>)
    ensures
        is_noop(Some(content), Some(content)),
{
}

/// Turns a file's bytes before and after into its record, patch and blobs.
///
/// Returns `Ok(None)` where nothing changed: the file exists on neither side,
/// or on both with the same content hash (equal buffers are found without
/// hashing). It never fails: content that is not text gets the placeholder
/// patch, and a diff has no more lines than its texts have bytes.
pub fn build_file_artifact(input: FileInput) -> (r: Result<Option<FileArtifact>, PipelineError>)
    ensures
        ({
            let before = opt_bytes_view(input.before);
            let after = opt_bytes_view(input.after);
            match r {
                Ok(None) => is_noop(before, after),
                Ok(Some(artifact)) => {
                    &&& !is_noop(before, after)
                    &&& stats_fit(before, after)
                    &&& artifact@ == artifact_of(input.path@, before, after)
                    &&& artifact.record@.wf()
                    &&& sides_hashed(artifact@)
                },
                Err(_) => false,
            }
        }),
        input.before is Some && opt_bytes_view(input.before) == opt_bytes_view(input.after)
            ==> r matches Ok(None),
{
    let FileInput { path, before, after } = input;
    let unchanged = match (&before, &after) {
        (Some(b), Some(a)) => same_bytes(b, a),
        (None, None) => true,
        _ => false,
    };
    if unchanged {
        return Ok(None);
    }
    let before_sha = match &before {
        Some(bytes) => Some(hash_bytes(bytes.as_slice())),
        None => None,
    };
    let after_sha = match &after {
        Some(bytes) => Some(hash_bytes(bytes.as_slice())),
        None => None,
    };
    let op = match (&before_sha, &after_sha) {
        (None, Some(_)) => FileOp::Added,
        (Some(_), None) => FileOp::Deleted,
        (Some(b), Some(a)) => {
            if *b == *a {
                return Ok(None);
            }
            FileOp::Modified
        },
        (None, None) => {
            return Ok(None);
        },
    };
    let built = build_patch(path.as_str(), before.as_ref(), after.as_ref());
    match built {
        Ok((patch, stats)) => {
            let record = FileRecord { path, op, before_sha, after_sha, stats };
            Ok(Some(FileArtifact { record, patch, before_blob: before, after_blob: after }))
        },
        Err(e) => Err(e),
    }
}

/// The sum of the added lines of some file records.
pub open spec fn total_added(files: Seq<FileRecordView>) -> nat
    decreases files.len(),
{
    if files.len() == 0 {
        0
    } else {
        total_added(files.drop_last()) + files.last().stats.added as nat
    }
}

/// The sum of the removed lines of some file records.
pub open spec fn total_removed(files: Seq<FileRecordView>) -> nat
    decreases files.len(),
{
    if files.len() == 0 {
        0
    } else {
        total_removed(files.drop_last()) + files.last().stats.removed as nat
    }
}

/// Whether the totals over some file records fit in `usize`.
pub open spec fn totals_fit(files: Seq<FileRecordView>) -> bool {
    total_added(files) <= usize::MAX && total_removed(files) <= usize::MAX
}

/// The totals over some file records, where they fit.
pub open spec fn stats_total(files: Seq<FileRecordView>) -> RecordStats {
    RecordStats {
        files: files.len() as usize,
        lines_added: total_added(files) as usize,
        lines_removed: total_removed(files) as usize,
    }
}

/// The totals over a prefix of the file records are no more than those over
/// all of them.
pub proof fn lemma_totals_monotone(files: Seq<FileRecordView>, n: int)
    requires
        0 <= n <= files.len(),
    ensures
        total_added(files.take(n)) <= total_added(files),
        total_removed(files.take(n)) <= total_removed(files),
    decreases files.len(),
{
    if n < files.len() {
        lemma_totals_monotone(files.drop_last(), n);
        assert(files.drop_last().take(n) == files.take(n));
    } else {
        assert(files.take(n) == files);
    }
}

/// Totals the files of a record, or finds that a total does not fit in
/// `usize`.
pub fn checked_aggregate_stats(files: &[FileRecord]) -> (r: Option<RecordStats>)
    ensures
        match r {
            Some(stats) => totals_fit(records_view(files@)) && stats == stats_total(
                records_view(files@),
            ),
            None => !totals_fit(records_view(files@)),
        },
{
    let ghost all = records_view(files@);
    let mut added: usize = 0;
    let mut removed: usize = 0;
    let mut i: usize = 0;
    while i < files.len()
        invariant
            i <= files.len(),
            all == records_view(files@),
            added == total_added(all.take(i as int)),
            removed == total_removed(all.take(i as int)),
        decreases files.len() - i,
    {
        proof {
            assert(all.take(i + 1).drop_last() == all.take(i as int));
            assert(all.take(i + 1).last() == files@[i as int]@);
            lemma_totals_monotone(all, i + 1);
        }
        let file = &files[i];
        match (added.checked_add(file.stats.added), removed.checked_add(file.stats.removed)) {
            (Some(a), Some(r)) => {
                added = a;
                removed = r;
            },
            _ => {
                return None;
            },
        }
        i = i + 1;
    }
    assert(all.take(files.len() as int) == all);
    Some(RecordStats { files: files.len(), lines_added: added, lines_removed: removed })
}

/// Totals the files of a record: their number, and the lines they add and
/// remove.
pub fn aggregate_stats(files: &[FileRecord]) -> (stats: RecordStats)
    requires
        totals_fit(records_view(files@)),
    ensures
        stats == stats_total(records_view(files@)),
{
    checked_aggregate_stats(files).unwrap()
}

/// What a compressed frame holds: the bytes that `zstd::stream::decode_all`
/// recovers from it, or nothing where it recovers none.
pub uninterp spec fn zstd_decoded(frame: Seq<u8>) -> Option<Seq<u8>>;

/// The frame that `zstd::stream::encode_all` makes of some bytes at the
/// library's default level, or nothing where it makes none.
pub uninterp spec fn zstd_encoded(data: Seq<u8>) -> Option<Seq<u8>>;

/// `zstd::stream::encode_all` at level 0, the library's default level. The
/// frame is a function of the data alone, and decodes to the data it was
/// made from; the error's message is kept.
#[verifier::external_body]
pub(crate) fn zstd_encode(data: &[u8]) -> (r: Result<Vec<u8>, String>)
    ensures
        match r {
            Ok(frame) => zstd_encoded(data@) == Some(frame@) && zstd_decoded(frame@) == Some(
                data@,
            ),
            Err(_) => zstd_encoded(data@) is None,
        },
{
    zstd::stream::encode_all(data, 0).map_err(|e| e.to_string())
}

/// `zstd::stream::decode_all`. What comes back is a function of the frame
/// alone: the bytes that the frame holds, or an error where it holds none;
/// the error's message is kept.
#[verifier::external_body]
pub(crate) fn zstd_decode(frame: &[u8]) -> (r: Result<Vec<u8>, String>)
    ensures
        match r {
            Ok(data) => zstd_decoded(frame@) == Some(data@),
            Err(_) => zstd_decoded(frame@) is None,
        },
{
    zstd::stream::decode_all(frame).map_err(|e| e.to_string())
}

/// The text that a compressed patch holds, if it holds any.
pub open spec fn packed_text(frame: Seq<u8>) -> Option<Seq<char>> {
    match zstd_decoded(frame) {
        Some(bytes) => if valid_utf8(bytes) {
            Some(decode_utf8(bytes))
        } else {
            None
        },
        None => None,
    }
}

/// Whether the compressor makes a frame of a text.
pub open spec fn text_packs(text: Seq<char>) -> bool {
    zstd_encoded(encode_utf8(text)) is Some
}

/// A frame that holds the UTF-8 bytes of a text holds that text.
pub proof fn lemma_packed_text(frame: Seq<u8>, text: Seq<char>)
    requires
        zstd_decoded(frame) == Some(encode_utf8(text)),
    ensures
        packed_text(frame) == Some(text),
{
    vstd::utf8::encode_utf8_valid_utf8(text);
    vstd::utf8::encode_utf8_decode_utf8(text);
}

/// Compresses the patch of a record: the frame that the compressor makes of
/// its UTF-8 bytes, which holds the patch. It fails exactly where the
/// compressor makes no frame.
pub fn compress_patch(patch: &str) -> (r: Result<Vec<u8>, PipelineError>)
    ensures
        match r {
            Ok(frame) => {
                &&& zstd_encoded(encode_utf8(patch@)) == Some(frame@)
                &&& packed_text(frame@) == Some(patch@)
            },
            Err(e) => e is Compress && !text_packs(patch@),
        },
{
    match zstd_encode(patch.as_bytes()) {
        Ok(frame) => {
            proof {
                lemma_packed_text(frame@, patch@);
            }
            Ok(frame)
        },
        Err(detail) => Err(PipelineError::Compress(detail)),
    }
}

/// Reads decompressed bytes as the text of a patch.
pub fn patch_from_bytes(bytes: &[u8]) -> (r: Result<String, PipelineError>)
    ensures
        match r {
            Ok(text) => valid_utf8(bytes@) && text@ == decode_utf8(bytes@),
            Err(e) => !valid_utf8(bytes@) && e is NotText,
        },
{
    match text_of(bytes) {
        Some(text) => Ok(text.to_owned()),
        None => Err(PipelineError::NotText),
    }
}

/// Decompresses the patch of a record: the text that the frame holds. A
/// frame that holds bytes which are not text is refused as such, and bytes
/// that hold nothing as failing to decompress.
pub fn decompress_patch(bytes: &[u8]) -> (r: Result<String, PipelineError>)
    ensures
        match r {
            Ok(text) => packed_text(bytes@) == Some(text@),
            Err(PipelineError::NotText) => zstd_decoded(bytes@) is Some && packed_text(bytes@)
                is None,
            Err(e) => e is Decompress && zstd_decoded(bytes@) is None,
        },
        packed_text(bytes@) matches Some(text) ==> r matches Ok(found) && found@ == text,
{
    match zstd_decode(bytes) {
        Ok(data) => patch_from_bytes(data.as_slice()),
        Err(detail) => Err(PipelineError::Decompress(detail)),
    }
}

} // verus!

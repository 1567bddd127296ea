//! One batch of changes: from the files it touched to the record it
//! commits.

use vstd::prelude::*;
use vstd::string::StringExecFns;
use vstd::utf8::encode_utf8;

use crate::models::{
    opt_str_view, records_view, FileOp, FileRecord, FileRecordView, RecordMeta, RecordMetaView,
};
use crate::pipeline::{
    artifact_of, build_file_artifact, checked_aggregate_stats, compress_patch, is_noop,
    opt_bytes_view, packed_text, records_of, sides_hashed, stats_total, text_packs, totals_fit,
    zstd_encoded, FileArtifact, FileArtifactView, FileInput, PipelineError,
};
use crate::history::{
    lemma_before_hash_is_pointer, lemma_blobs_keep_sound, lemma_commit_keeps_sound, sound,
};
use crate::registry::{registry_touched, ProjectEntryView};
use crate::storage::{
    apply_files, artifact_packs, artifact_storable, artifacts_view, blobs_after, commits,
    grown_from, has_record, latest_record_id_of, span_fits, StorageEngine, StorageError,
    StoreState,
};
use crate::text::{
    lemma_str_less_irreflexive, lemma_str_less_total, lemma_str_less_transitive, str_ends_with,
    str_eq, str_less, str_lt,
};
use crate::util::{
    blake3_digest, blake3_hash, content_hash, has_shard, short_id, short_id_of, tool_version,
    TOOL_VERSION,
};

verus! {

/// What was found at a path when a batch was looked at.
#[derive(Debug)]
pub enum PathState {
    /// A directory: not a file to track.
    Directory,
    /// A file with this content.
    File(Vec<u8>),
    /// Nothing: the file is gone.
    Missing,
}

/// The mathematical content of a [`PathState`].
pub enum PathStateView {
    Directory,
    File(Seq<u8>),
    Missing,
}

impl View for PathState {
    type V = PathStateView;

    open spec fn view(&self) -> PathStateView {
        match self {
            PathState::Directory => PathStateView::Directory,
            PathState::File(bytes) => PathStateView::File(bytes@),
            PathState::Missing => PathStateView::Missing,
        }
    }
}

/// The mathematical content of a [`TrackedFile`].
pub struct TrackedFileView {
    pub path: Seq<char>,
    pub state: PathStateView,
}

/// A project file of a batch: its path relative to the root, and what is
/// there now.
#[derive(Debug)]
pub struct TrackedFile {
    pub path: String,
    pub state: PathState,
}

impl View for TrackedFile {
    type V = TrackedFileView;

    open spec fn view(&self) -> TrackedFileView {
        TrackedFileView { path: self.path@, state: self.state@ }
    }
}

/// The contents of a list of tracked files.
pub open spec fn tracked_view(files: Seq<TrackedFile>) -> Seq<TrackedFileView> {
    files.map_values(|f: TrackedFile| f@)
}

/// Why a batch was abandoned.
#[derive(Debug)]
pub enum WatchError {
    /// The store refused an operation.
    Storage(StorageError),
    /// A patch could not be built or compressed.
    Pipeline(PipelineError),
    /// The line totals of the batch do not fit in `usize`.
    StatsOverflow,
}

impl WatchError {
    /// The sentence that tells the user of the error.
    pub open spec fn message_text(&self) -> Seq<char> {
        match self {
            WatchError::Storage(e) => e.message_text(),
            WatchError::Pipeline(e) => e.message_text(),
            WatchError::StatsOverflow => "batch has too many changed lines to count"@,
        }
    }

    /// A sentence for the user.
    pub fn message(&self) -> (s: String)
        ensures
            s@ == self.message_text(),
    {
        match self {
            WatchError::Storage(e) => e.message(),
            WatchError::Pipeline(e) => e.message(),
            WatchError::StatsOverflow => "batch has too many changed lines to count".to_owned(),
        }
    }
}

/// The mathematical content of a [`BatchFile`].
pub struct BatchFileView {
    pub path: Seq<char>,
    pub state: PathStateView,
    pub before: Option<Seq<u8>>,
}

/// A project file of a batch with both of its sides: what is there now,
/// and the content that was last recorded of it, if any was.
#[derive(Debug)]
pub struct BatchFile {
    pub path: String,
    pub state: PathState,
    pub before: Option<Vec<u8>>,
}

impl View for BatchFile {
    type V = BatchFileView;

    open spec fn view(&self) -> BatchFileView {
        BatchFileView { path: self.path@, state: self.state@, before: opt_bytes_view(self.before) }
    }
}

/// The contents of a list of batch files.
pub open spec fn batch_view(files: Seq<BatchFile>) -> Seq<BatchFileView> {
    files.map_values(|f: BatchFile| f@)
}

/// The content a file has now, or nothing where it is gone.
pub open spec fn content_after(state: PathStateView) -> Option<Seq<u8>> {
    match state {
        PathStateView::File(bytes) => Some(bytes),
        _ => None,
    }
}

/// What a file contributes to the batch: nothing where it is a directory
/// or did not change.
pub open spec fn artifact_from(file: BatchFileView) -> Option<FileArtifactView> {
    let after = content_after(file.state);
    if file.state is Directory || is_noop(file.before, after) {
        None
    } else {
        Some(artifact_of(file.path, file.before, after))
    }
}

/// The artifacts of some files, in the order of the files.
pub open spec fn artifacts_from(files: Seq<BatchFileView>) -> Seq<FileArtifactView>
    decreases files.len(),
{
    if files.len() == 0 {
        Seq::empty()
    } else {
        let earlier = artifacts_from(files.drop_last());
        match artifact_from(files.last()) {
            Some(artifact) => earlier.push(artifact),
            None => earlier,
        }
    }
}

/// Whether some files stand in the strictly ascending order of their paths,
/// and so no path occurs twice.
pub open spec fn ascending(files: Seq<BatchFileView>) -> bool {
    forall|i: int, j: int|
        0 <= i < j < files.len() ==> str_less((#[trigger] files[i]).path, (#[trigger] files[j]).path)
}

/// Whether some file records stand in the strictly ascending order of
/// their paths.
pub open spec fn paths_ascend(files: Seq<FileRecordView>) -> bool {
    forall|i: int, j: int|
        0 <= i < j < files.len() ==> str_less((#[trigger] files[i]).path, (#[trigger] files[j]).path)
}

/// Files in order with one more file: it stands before the first file
/// whose path comes after its own, and is left out where a file of its
/// path is there.
pub open spec fn put_file(sorted: Seq<BatchFileView>, file: BatchFileView) -> Seq<BatchFileView>
    decreases sorted.len(),
{
    if sorted.len() == 0 {
        seq![file]
    } else if sorted[0].path == file.path {
        sorted
    } else if str_less(file.path, sorted[0].path) {
        seq![file] + sorted
    } else {
        seq![sorted[0]] + put_file(sorted.drop_first(), file)
    }
}

/// The files of a batch in the order of their paths, each path once: of
/// files with one path the last is kept.
pub open spec fn ordered(files: Seq<BatchFileView>) -> Seq<BatchFileView>
    decreases files.len(),
{
    if files.len() == 0 {
        Seq::empty()
    } else {
        put_file(ordered(files.drop_first()), files[0])
    }
}

/// Putting a file in puts it at the position before which every path comes
/// before its own and at which none does, unless its path stands there.
proof fn lemma_put_at(sorted: Seq<BatchFileView>, file: BatchFileView, p: int)
    requires
        0 <= p <= sorted.len(),
        forall|k: int| 0 <= k < p ==> str_less((#[trigger] sorted[k]).path, file.path),
        p < sorted.len() ==> !str_less(sorted[p].path, file.path),
    ensures
        put_file(sorted, file) == if p < sorted.len() && sorted[p].path == file.path {
            sorted
        } else {
            sorted.insert(p, file)
        },
    decreases p,
{
    if p == 0 {
        if sorted.len() == 0 {
            assert(seq![file] =~= sorted.insert(0, file));
        } else if sorted[0].path != file.path {
            lemma_str_less_total(sorted[0].path, file.path);
            assert(seq![file] + sorted =~= sorted.insert(0, file));
        }
    } else {
        assert(str_less(sorted[0].path, file.path));
        lemma_str_less_irreflexive(file.path);
        if str_less(file.path, sorted[0].path) {
            lemma_str_less_transitive(file.path, sorted[0].path, file.path);
        }
        let rest = sorted.drop_first();
        assert forall|k: int| 0 <= k < p - 1 implies str_less(
            (#[trigger] rest[k]).path,
            file.path,
        ) by {
            assert(rest[k] == sorted[k + 1]);
        }
        if p - 1 < rest.len() {
            assert(rest[p - 1] == sorted[p]);
        }
        lemma_put_at(rest, file, p - 1);
        if p < sorted.len() && sorted[p].path == file.path {
            assert(seq![sorted[0]] + rest =~= sorted);
        } else {
            assert(seq![sorted[0]] + rest.insert(p - 1, file) =~= sorted.insert(p, file));
        }
    }
}

/// Putting a file in keeps the files in order, and adds nothing but the
/// file.
pub proof fn lemma_put_ascending(sorted: Seq<BatchFileView>, file: BatchFileView)
    requires
        ascending(sorted),
    ensures
        ascending(put_file(sorted, file)),
        forall|e: BatchFileView| #[trigger]
            put_file(sorted, file).contains(e) ==> e == file || sorted.contains(e),
    decreases sorted.len(),
{
    let out = put_file(sorted, file);
    if sorted.len() == 0 {
        assert(out[0] == file);
    } else if sorted[0].path == file.path {
    } else if str_less(file.path, sorted[0].path) {
        assert forall|i: int, j: int| 0 <= i < j < out.len() implies str_less(
            (#[trigger] out[i]).path,
            (#[trigger] out[j]).path,
        ) by {
            assert(out[j] == sorted[j - 1]);
            if i > 0 {
                assert(out[i] == sorted[i - 1]);
                assert(str_less(sorted[i - 1].path, sorted[j - 1].path));
            } else if j > 1 {
                assert(str_less(sorted[0].path, sorted[j - 1].path));
                lemma_str_less_transitive(file.path, sorted[0].path, sorted[j - 1].path);
            }
        }
        assert forall|e: BatchFileView| #[trigger] out.contains(e) implies e == file
            || sorted.contains(e) by {
            let k = choose|k: int| 0 <= k < out.len() && out[k] == e;
            if k > 0 {
                assert(sorted[k - 1] == e);
            }
        }
    } else {
        let rest = sorted.drop_first();
        assert forall|i: int, j: int| 0 <= i < j < rest.len() implies str_less(
            (#[trigger] rest[i]).path,
            (#[trigger] rest[j]).path,
        ) by {
            assert(str_less(sorted[i + 1].path, sorted[j + 1].path));
        }
        lemma_put_ascending(rest, file);
        let tail = put_file(rest, file);
        assert(out == seq![sorted[0]] + tail);
        lemma_str_less_total(sorted[0].path, file.path);
        assert forall|i: int, j: int| 0 <= i < j < out.len() implies str_less(
            (#[trigger] out[i]).path,
            (#[trigger] out[j]).path,
        ) by {
            assert(out[j] == tail[j - 1]);
            if i > 0 {
                assert(out[i] == tail[i - 1]);
                assert(str_less(tail[i - 1].path, tail[j - 1].path));
            } else {
                assert(tail.contains(tail[j - 1]));
                if tail[j - 1] != file {
                    let k = choose|k: int| 0 <= k < rest.len() && rest[k] == tail[j - 1];
                    assert(str_less(sorted[0].path, sorted[k + 1].path));
                }
            }
        }
        assert forall|e: BatchFileView| #[trigger] out.contains(e) implies e == file
            || sorted.contains(e) by {
            let k = choose|k: int| 0 <= k < out.len() && out[k] == e;
            if k == 0 {
                assert(sorted[0] == e);
            } else {
                assert(tail[k - 1] == e);
                assert(tail.contains(e));
                if e != file {
                    let m = choose|m: int| 0 <= m < rest.len() && rest[m] == e;
                    assert(sorted[m + 1] == e);
                }
            }
        }
    }
}

/// The files of a batch in order stand in the strictly ascending order of
/// their paths.
pub proof fn lemma_ordered_ascending(files: Seq<BatchFileView>)
    ensures
        ascending(ordered(files)),
    decreases files.len(),
{
    if files.len() > 0 {
        lemma_ordered_ascending(files.drop_first());
        lemma_put_ascending(ordered(files.drop_first()), files[0]);
    }
}

/// The artifacts of files in order are in order: the record of a batch
/// lists its files by their paths, each path once.
pub proof fn lemma_artifacts_ascend(files: Seq<BatchFileView>)
    requires
        ascending(files),
    ensures
        paths_ascend(records_of(artifacts_from(files))),
        forall|k: int|
            0 <= k < artifacts_from(files).len() ==> exists|j: int|
                0 <= j < files.len() && (#[trigger] files[j]).path == (
                #[trigger] artifacts_from(files)[k]).record.path,
    decreases files.len(),
{
    let arts = artifacts_from(files);
    if files.len() > 0 {
        let front = files.drop_last();
        let last = files.last();
        assert forall|i: int, j: int| 0 <= i < j < front.len() implies str_less(
            (#[trigger] front[i]).path,
            (#[trigger] front[j]).path,
        ) by {
            assert(str_less(files[i].path, files[j].path));
        }
        lemma_artifacts_ascend(front);
        let earlier = artifacts_from(front);
        assert forall|k: int| 0 <= k < arts.len() implies exists|j: int|
            0 <= j < files.len() && (#[trigger] files[j]).path == (#[trigger] arts[k]).record.path by {
            if k < earlier.len() {
                assert(arts[k] == earlier[k]);
                let j = choose|j: int|
                    0 <= j < front.len() && (#[trigger] front[j]).path == earlier[k].record.path;
                assert(files[j] == front[j]);
            } else {
                assert(files[files.len() - 1].path == arts[k].record.path);
            }
        }
        let records = records_of(arts);
        assert forall|i: int, j: int| 0 <= i < j < records.len() implies str_less(
            (#[trigger] records[i]).path,
            (#[trigger] records[j]).path,
        ) by {
            if j < earlier.len() {
                assert(records_of(earlier)[i] == records[i]);
                assert(records_of(earlier)[j] == records[j]);
            } else {
                assert(arts[i] == earlier[i]);
                let m = choose|m: int|
                    0 <= m < front.len() && (#[trigger] front[m]).path == earlier[i].record.path;
                assert(str_less(files[m].path, files[files.len() - 1].path));
                assert(arts[j].record.path == last.path);
            }
        }
    }
}

/// Puts a file into files that stand in order.
fn put(sorted: &mut Vec<BatchFile>, file: BatchFile)
    ensures
        batch_view(final(sorted)@) == put_file(batch_view(old(sorted)@), file@),
{
    let ghost before = batch_view(sorted@);
    let mut p: usize = 0;
    while p < sorted.len() && str_lt(sorted[p].path.as_str(), file.path.as_str())
        invariant
            p <= sorted.len(),
            before == batch_view(sorted@),
            forall|k: int| 0 <= k < p ==> str_less((#[trigger] before[k]).path, file.path@),
        decreases sorted.len() - p,
    {
        p = p + 1;
    }
    proof {
        lemma_put_at(before, file@, p as int);
    }
    if p < sorted.len() && str_eq(sorted[p].path.as_str(), file.path.as_str()) {
        return ;
    }
    sorted.insert(p, file);
    assert(batch_view(sorted@) =~= before.insert(p as int, file@));
}

/// Puts the files of a batch in the order of their paths, each path once.
pub fn order_files(files: Vec<BatchFile>) -> (r: Vec<BatchFile>)
    ensures
        batch_view(r@) == ordered(batch_view(files@)),
        ascending(batch_view(r@)),
{
    let ghost all = batch_view(files@);
    let mut rest = files;
    let mut out: Vec<BatchFile> = Vec::new();
    assert(all.skip(all.len() as int) =~= Seq::<BatchFileView>::empty());
    assert(batch_view(out@) =~= ordered(all.skip(all.len() as int)));
    while rest.len() > 0
        invariant
            rest.len() <= all.len(),
            batch_view(rest@) == all.take(rest.len() as int),
            batch_view(out@) == ordered(all.skip(rest.len() as int)),
        decreases rest.len(),
    {
        let ghost n = rest.len() as int;
        let ghost held = batch_view(rest@);
        let file = rest.pop().unwrap();
        proof {
            assert(file@ == held[n - 1]);
            assert(file@ == all[n - 1]);
            assert(batch_view(rest@) =~= all.take(n - 1));
            assert(all.skip(n - 1).drop_first() =~= all.skip(n));
            assert(all.skip(n - 1)[0] == all[n - 1]);
        }
        put(&mut out, file);
    }
    proof {
        assert(all.skip(0) =~= all);
        lemma_ordered_ascending(all);
    }
    out
}

/// Builds the artifacts of some files with both sides, in their order: for
/// each file that is not a directory, the change from what was last
/// recorded to what is there now, unless that is no change.
pub fn artifacts_of(files: &[BatchFile]) -> (artifacts: Vec<FileArtifact>)
    ensures
        artifacts_view(artifacts@) == artifacts_from(batch_view(files@)),
        forall|i: int|
            0 <= i < artifacts@.len() ==> (#[trigger] artifacts@[i]).record@.wf() && sides_hashed(
                artifacts@[i]@,
            ),
{
    let ghost all = batch_view(files@);
    let mut out: Vec<FileArtifact> = Vec::new();
    let mut i: usize = 0;
    assert(artifacts_view(out@) =~= artifacts_from(all.take(0)));
    while i < files.len()
        invariant
            i <= files.len(),
            all == batch_view(files@),
            artifacts_view(out@) == artifacts_from(all.take(i as int)),
            forall|k: int|
                0 <= k < out@.len() ==> (#[trigger] out@[k]).record@.wf() && sides_hashed(
                    out@[k]@,
                ),
        decreases files.len() - i,
    {
        proof {
            assert(all.take(i + 1).drop_last() == all.take(i as int));
            assert(all.take(i + 1).last() == files@[i as int]@);
        }
        let file = &files[i];
        let after = match &file.state {
            PathState::Directory => {
                i = i + 1;
                continue ;
            },
            PathState::File(bytes) => Some(bytes.clone()),
            PathState::Missing => None,
        };
        let before = match &file.before {
            Some(bytes) => Some(bytes.clone()),
            None => None,
        };
        let input = FileInput { path: file.path.clone(), before, after };
        match build_file_artifact(input).unwrap() {
            Some(artifact) => {
                let ghost earlier = artifacts_view(out@);
                let ghost held = out@;
                out.push(artifact);
                assert(artifacts_view(out@) =~= earlier.push(artifact@));
                assert forall|k: int| 0 <= k < out@.len() implies (#[trigger] out@[k]).record@.wf()
                    && sides_hashed(out@[k]@) by {
                    if k < held.len() {
                        assert(out@[k] == held[k]);
                    }
                }
            },
            None => {},
        }
        i = i + 1;
    }
    assert(all.take(files.len() as int) == all);
    out
}

/// The content a file had when it was last recorded: the blob its snapshot
/// pointer names, or nothing where the path has no pointer.
pub open spec fn content_before(state: StoreState, path: Seq<char>) -> Option<Seq<u8>> {
    if state.snapshots.contains_key(path) {
        Some(state.blobs[state.snapshots[path].sha])
    } else {
        None
    }
}

/// Whether a blob can be looked for under the hash that a path's snapshot
/// pointer names, and is stored there.
pub open spec fn before_stored(state: StoreState, path: Seq<char>) -> bool {
    state.snapshots.contains_key(path) ==> has_shard(state.snapshots[path].sha)
        && state.blobs.contains_key(state.snapshots[path].sha)
}

/// Whether the last recorded content of every file that is not a directory
/// can be read from the store.
pub open spec fn all_stored(state: StoreState, files: Seq<TrackedFileView>) -> bool {
    forall|i: int|
        0 <= i < files.len() ==> (#[trigger] files[i]).state is Directory || before_stored(
            state,
            files[i].path,
        )
}

/// A tracked file with the content that the store last recorded of it. A
/// directory is not looked up.
pub open spec fn with_before(state: StoreState, file: TrackedFileView) -> BatchFileView {
    BatchFileView {
        path: file.path,
        state: file.state,
        before: if file.state is Directory {
            None
        } else {
            content_before(state, file.path)
        },
    }
}

/// The tracked files of a batch, each with its last recorded content.
pub open spec fn all_with_before(state: StoreState, files: Seq<TrackedFileView>) -> Seq<
    BatchFileView,
> {
    Seq::new(files.len(), |i: int| with_before(state, files[i]))
}

/// The files of a batch against a store: each with its last recorded
/// content, in the order of their paths, each path once.
pub open spec fn files_for(state: StoreState, files: Seq<TrackedFileView>) -> Seq<BatchFileView> {
    ordered(all_with_before(state, files))
}

/// The artifacts of a batch against a store, in the order of their paths.
pub open spec fn artifacts_for(state: StoreState, files: Seq<TrackedFileView>) -> Seq<
    FileArtifactView,
> {
    artifacts_from(files_for(state, files))
}

/// A file that the store has no pointer for and that is there now is
/// recorded as added: with no before-hash, and the hash of its content as
/// its after-hash.
pub proof fn lemma_new_file_is_added(state: StoreState, path: Seq<char>, content: Seq<u8>)
    requires
        !state.snapshots.contains_key(path),
    ensures
        artifact_from(
            with_before(state, TrackedFileView { path, state: PathStateView::File(content) }),
        ) matches Some(a) && a.record.path == path && a.record.op == FileOp::Added
            && a.record.before_sha is None && a.record.after_sha == Some(content_hash(content))
            && a.after_blob == Some(content),
{
}

/// In a sound store, a file whose content no longer has the hash that its
/// pointer names is recorded as modified: its before-hash is the pointer's
/// hash, which is the after-hash of the latest record of the path, and its
/// after-hash is the hash of what is there now.
pub proof fn lemma_changed_file_is_modified(state: StoreState, path: Seq<char>, content: Seq<u8>)
    requires
        sound(state),
        state.snapshots.contains_key(path),
        content_hash(content) != state.snapshots[path].sha,
    ensures
        artifact_from(
            with_before(state, TrackedFileView { path, state: PathStateView::File(content) }),
        ) matches Some(a) && a.record.path == path && a.record.op == FileOp::Modified
            && a.record.before_sha == Some(state.snapshots[path].sha) && a.record.after_sha
            == Some(content_hash(content)) && a.before_blob == Some(
            state.blobs[state.snapshots[path].sha],
        ) && a.after_blob == Some(content),
{
    lemma_before_hash_is_pointer(state, path);
}

/// In a sound store, a file that the store has a pointer for and that is
/// gone is recorded as deleted: its before-hash is the pointer's hash, and
/// it has no after-hash.
pub proof fn lemma_missing_file_is_deleted(state: StoreState, path: Seq<char>)
    requires
        sound(state),
        state.snapshots.contains_key(path),
    ensures
        artifact_from(with_before(state, TrackedFileView { path, state: PathStateView::Missing }))
            matches Some(a) && a.record.path == path && a.record.op == FileOp::Deleted
            && a.record.before_sha == Some(state.snapshots[path].sha) && a.record.after_sha
            is None,
{
    lemma_before_hash_is_pointer(state, path);
}

/// Copies what was found at a path.
fn clone_state(state: &PathState) -> (r: PathState)
    ensures
        r@ == state@,
{
    match state {
        PathState::Directory => PathState::Directory,
        PathState::File(bytes) => PathState::File(bytes.clone()),
        PathState::Missing => PathState::Missing,
    }
}

/// Looks up the last recorded content of each file of a batch: the blob
/// that its snapshot pointer names.
///
/// It fails exactly where a pointer names a blob that is not stored or
/// cannot be looked for.
pub fn gather(files: &[TrackedFile], storage: &StorageEngine) -> (r: Result<
    Vec<BatchFile>,
    WatchError,
>)
    requires
        storage.wf(),
    ensures
        match r {
            Ok(found) => {
                &&& all_stored(storage.state(), tracked_view(files@))
                &&& batch_view(found@) == all_with_before(storage.state(), tracked_view(files@))
            },
            Err(e) => {
                &&& e matches WatchError::Storage(cause) && (cause is InvalidHash || cause
                    is BlobNotFound)
                &&& !all_stored(storage.state(), tracked_view(files@))
            },
        },
{
    let ghost all = tracked_view(files@);
    let ghost state = storage.state();
    let mut out: Vec<BatchFile> = Vec::new();
    let mut i: usize = 0;
    while i < files.len()
        invariant
            i <= files.len(),
            storage.wf(),
            state == storage.state(),
            all == tracked_view(files@),
            batch_view(out@) == all_with_before(state, all).take(i as int),
            forall|k: int|
                0 <= k < i ==> (#[trigger] all[k]).state is Directory || before_stored(
                    state,
                    all[k].path,
                ),
        decreases files.len() - i,
    {
        assert(all[i as int] == files@[i as int]@);
        let file = &files[i];
        let before = match &file.state {
            PathState::Directory => None,
            _ => match storage.fetch_snapshot(file.path.as_str()) {
                Some(sha) => match storage.read_blob(sha.as_str()) {
                    Ok(bytes) => Some(bytes),
                    Err(e) => {
                        assert(!before_stored(state, all[i as int].path));
                        return Err(WatchError::Storage(e));
                    },
                },
                None => None,
            },
        };
        let ghost held = batch_view(out@);
        let found = BatchFile { path: file.path.clone(), state: clone_state(&file.state), before };
        out.push(found);
        assert(batch_view(out@) =~= held.push(with_before(state, all[i as int])));
        assert(all_with_before(state, all).take(i + 1) =~= held.push(
            with_before(state, all[i as int]),
        ));
        i = i + 1;
    }
    assert(all_with_before(state, all).take(files.len() as int) =~= all_with_before(state, all));
    Ok(out)
}

/// Builds the artifacts of a batch against a store: for each file that is
/// not a directory, the change from the blob its snapshot pointer names to
/// what is there now, unless that is no change. The artifacts stand in the
/// order of their paths, each path once.
///
/// It fails exactly where a pointer names a blob that is not stored or
/// cannot be looked for.
pub fn build_artifacts(files: &[TrackedFile], storage: &StorageEngine) -> (r: Result<
    Vec<FileArtifact>,
    WatchError,
>)
    requires
        storage.wf(),
    ensures
        match r {
            Ok(artifacts) => {
                &&& all_stored(storage.state(), tracked_view(files@))
                &&& artifacts_view(artifacts@) == artifacts_for(
                    storage.state(),
                    tracked_view(files@),
                )
                &&& paths_ascend(records_of(artifacts_view(artifacts@)))
                &&& forall|i: int|
                    0 <= i < artifacts@.len() ==> (#[trigger] artifacts@[i]).record@.wf()
                        && sides_hashed(artifacts@[i]@)
            },
            Err(e) => {
                &&& e matches WatchError::Storage(cause) && (cause is InvalidHash || cause
                    is BlobNotFound)
                &&& !all_stored(storage.state(), tracked_view(files@))
            },
        },
{
    match gather(files, storage) {
        Ok(found) => {
            let sorted = order_files(found);
            proof {
                lemma_artifacts_ascend(batch_view(sorted@));
            }
            Ok(artifacts_of(sorted.as_slice()))
        },
        Err(e) => Err(e),
    }
}

/// The eight bytes of a timestamp, the most significant first.
pub open spec fn be_bytes(x: i64) -> Seq<u8> {
    let u = x as u64;
    seq![
        (u >> 56) as u8,
        (u >> 48) as u8,
        (u >> 40) as u8,
        (u >> 32) as u8,
        (u >> 24) as u8,
        (u >> 16) as u8,
        (u >> 8) as u8,
        u as u8,
    ]
}

/// What the files of a record add to the bytes its identifier is derived
/// from: of each file in order its path, and its after-hash where it has
/// one.
pub open spec fn files_preimage(files: Seq<FileRecordView>) -> Seq<u8>
    decreases files.len(),
{
    if files.len() == 0 {
        Seq::empty()
    } else {
        let last = files.last();
        files_preimage(files.drop_last()) + encode_utf8(last.path) + match last.after_sha {
            Some(sha) => encode_utf8(sha),
            None => Seq::empty(),
        }
    }
}

/// The bytes a record identifier is derived from: the project id, the
/// batch's start, and the path and after-hash of each file.
pub open spec fn record_preimage(
    project_id: Seq<char>,
    started_at: i64,
    files: Seq<FileRecordView>,
) -> Seq<u8> {
    encode_utf8(project_id) + be_bytes(started_at) + files_preimage(files)
}

/// The identifier of a record: the short id of the digest of its preimage.
/// It is a function of the project id, the start and the files' paths and
/// after-hashes alone.
pub open spec fn record_id_of(
    project_id: Seq<char>,
    started_at: i64,
    files: Seq<FileRecordView>,
) -> Seq<char> {
    short_id_of(blake3_digest(record_preimage(project_id, started_at, files)))
}

/// Whether two lists of file records name the same paths with the same
/// after-hashes, in the same order.
pub open spec fn same_paths_and_hashes(a: Seq<FileRecordView>, b: Seq<FileRecordView>) -> bool {
    &&& a.len() == b.len()
    &&& forall|i: int|
        0 <= i < a.len() ==> (#[trigger] a[i]).path == b[i].path && a[i].after_sha
            == b[i].after_sha
}

/// A record identifier depends on nothing but the project id, the start
/// and the ordered paths and after-hashes of the files.
pub proof fn lemma_record_id_deterministic(
    project_id: Seq<char>,
    started_at: i64,
    a: Seq<FileRecordView>,
    b: Seq<FileRecordView>,
)
    requires
        same_paths_and_hashes(a, b),
    ensures
        record_id_of(project_id, started_at, a) == record_id_of(project_id, started_at, b),
{
    lemma_files_preimage(a, b);
}

/// Files that name the same paths and after-hashes add the same bytes to
/// the preimage.
proof fn lemma_files_preimage(a: Seq<FileRecordView>, b: Seq<FileRecordView>)
    requires
        same_paths_and_hashes(a, b),
    ensures
        files_preimage(a) == files_preimage(b),
    decreases a.len(),
{
    if a.len() > 0 {
        assert forall|i: int| 0 <= i < a.drop_last().len() implies (#[trigger] a.drop_last()[i]).path
            == b.drop_last()[i].path && a.drop_last()[i].after_sha
            == b.drop_last()[i].after_sha by {
            assert(a[i].path == b[i].path);
        }
        lemma_files_preimage(a.drop_last(), b.drop_last());
        assert(a[a.len() - 1].path == b[a.len() - 1].path);
    }
}

/// Appends all of `bytes` to `buffer`.
fn extend(buffer: &mut Vec<u8>, bytes: &[u8])
    ensures
        final(buffer)@ == old(buffer)@ + bytes@,
{
    let ghost start = buffer@;
    let mut i: usize = 0;
    while i < bytes.len()
        invariant
            i <= bytes.len(),
            buffer@ == start + bytes@.take(i as int),
        decreases bytes.len() - i,
    {
        buffer.push(bytes[i]);
        assert(buffer@ =~= start + bytes@.take(i + 1));
        i = i + 1;
    }
    assert(bytes@.take(bytes.len() as int) == bytes@);
}

/// The bytes a record identifier is derived from.
pub fn record_id_preimage(project_id: &str, started_at: i64, files: &[FileRecord]) -> (r: Vec<u8>)
    ensures
        r@ == record_preimage(project_id@, started_at, records_view(files@)),
{
    let mut buffer: Vec<u8> = Vec::new();
    extend(&mut buffer, project_id.as_bytes());
    let u = started_at as u64;
    buffer.push((u >> 56) as u8);
    buffer.push((u >> 48) as u8);
    buffer.push((u >> 40) as u8);
    buffer.push((u >> 32) as u8);
    buffer.push((u >> 24) as u8);
    buffer.push((u >> 16) as u8);
    buffer.push((u >> 8) as u8);
    buffer.push(u as u8);
    let ghost head = encode_utf8(project_id@) + be_bytes(started_at);
    assert(buffer@ =~= head);
    let ghost all = records_view(files@);
    let mut i: usize = 0;
    assert(buffer@ =~= head + files_preimage(all.take(0)));
    while i < files.len()
        invariant
            i <= files.len(),
            all == records_view(files@),
            buffer@ == head + files_preimage(all.take(i as int)),
        decreases files.len() - i,
    {
        proof {
            assert(all.take(i + 1).drop_last() == all.take(i as int));
            assert(all.take(i + 1).last() == files@[i as int]@);
        }
        let ghost so_far = buffer@;
        let file = &files[i];
        extend(&mut buffer, file.path.as_str().as_bytes());
        match &file.after_sha {
            Some(sha) => {
                extend(&mut buffer, sha.as_str().as_bytes());
            },
            None => {},
        }
        assert(buffer@ =~= head + files_preimage(all.take(i + 1)));
        i = i + 1;
    }
    assert(all.take(files.len() as int) == all);
    buffer
}

/// Derives the identifier of a record from the project id, the start of
/// its batch, and the path and after-hash of each of its files. The same
/// inputs always give the same identifier.
pub fn generate_record_id(project_id: &str, started_at: i64, files: &[FileRecord]) -> (id: String)
    ensures
        id@ == record_id_of(project_id@, started_at, records_view(files@)),
{
    let preimage = record_id_preimage(project_id, started_at, files);
    let digest = blake3_hash(preimage.as_slice());
    short_id(digest.as_slice())
}

/// The patch of a record: the patches of its files in order, each ended by
/// a line feed where it has none, and followed by an empty line.
pub open spec fn joined_patch(artifacts: Seq<FileArtifactView>) -> Seq<char>
    decreases artifacts.len(),
{
    if artifacts.len() == 0 {
        Seq::empty()
    } else {
        let patch = artifacts.last().patch;
        let ended = if patch.len() > 0 && patch.last() == '\n' {
            patch
        } else {
            patch + seq!['\n']
        };
        joined_patch(artifacts.drop_last()) + ended + seq!['\n']
    }
}

/// Joins the patches of the files of a record.
pub fn join_patches(artifacts: &[FileArtifact]) -> (patch: String)
    ensures
        patch@ == joined_patch(artifacts_view(artifacts@)),
{
    let ghost all = artifacts_view(artifacts@);
    let mut patch = String::new();
    let mut i: usize = 0;
    proof {
        reveal_strlit("\n");
        assert("\n"@ =~= seq!['\n']);
    }
    assert(patch@ =~= joined_patch(all.take(0)));
    while i < artifacts.len()
        invariant
            i <= artifacts.len(),
            all == artifacts_view(artifacts@),
            "\n"@ == seq!['\n'],
            patch@ == joined_patch(all.take(i as int)),
        decreases artifacts.len() - i,
    {
        proof {
            assert(all.take(i + 1).drop_last() == all.take(i as int));
            assert(all.take(i + 1).last() == artifacts@[i as int]@);
        }
        let ghost so_far = patch@;
        let artifact = &artifacts[i];
        patch.append(artifact.patch.as_str());
        if !str_ends_with(artifact.patch.as_str(), '\n') {
            patch.append("\n");
        }
        patch.append("\n");
        assert(patch@ =~= joined_patch(all.take(i + 1)));
        i = i + 1;
    }
    assert(all.take(artifacts.len() as int) == all);
    patch
}

/// Copies the file records out of the artifacts of a batch.
pub fn file_records(artifacts: &[FileArtifact]) -> (r: Vec<FileRecord>)
    ensures
        records_view(r@) == records_of(artifacts_view(artifacts@)),
{
    let mut out: Vec<FileRecord> = Vec::new();
    let mut i: usize = 0;
    while i < artifacts.len()
        invariant
            i <= artifacts.len(),
            records_view(out@) == records_of(artifacts_view(artifacts@)).take(i as int),
        decreases artifacts.len() - i,
    {
        let ghost before = records_view(out@);
        out.push(artifacts[i].record.clone());
        assert(records_view(out@) =~= before.push(artifacts@[i as int].record@));
        assert(records_of(artifacts_view(artifacts@)).take(i + 1) =~= before.push(
            artifacts@[i as int].record@,
        ));
        i = i + 1;
    }
    assert(records_of(artifacts_view(artifacts@)).take(artifacts.len() as int) == records_of(
        artifacts_view(artifacts@),
    ));
    out
}

/// What a batch that changed something leaves behind: the metadata of the
/// committed record and its patch as text.
#[derive(Debug)]
pub struct BatchOutcome {
    pub meta: RecordMeta,
    pub patch: String,
}

/// A record that is ready to be committed: its metadata, its patch as text
/// and compressed, and the artifacts whose blobs it needs.
#[derive(Debug)]
pub struct RecordPlan {
    pub meta: RecordMeta,
    pub patch: String,
    pub compressed: Vec<u8>,
    pub artifacts: Vec<FileArtifact>,
}

/// The metadata of the record that a batch commits.
pub open spec fn meta_of(
    project_id: Seq<char>,
    started_at: i64,
    ended_at: i64,
    artifacts: Seq<FileArtifactView>,
    prev_record_id: Option<Seq<char>>,
) -> RecordMetaView {
    RecordMetaView {
        record_id: record_id_of(project_id, started_at, records_of(artifacts)),
        project_id,
        started_at,
        ended_at,
        files: records_of(artifacts),
        stats: stats_total(records_of(artifacts)),
        prev_record_id,
        tool_version: TOOL_VERSION@,
    }
}

/// Whether a plan is the record of the given artifacts.
pub open spec fn plans(
    plan: RecordPlan,
    project_id: Seq<char>,
    started_at: i64,
    ended_at: i64,
    artifacts: Seq<FileArtifactView>,
    prev_record_id: Option<Seq<char>>,
) -> bool {
    &&& artifacts_view(plan.artifacts@) == artifacts
    &&& plan.meta@ == meta_of(project_id, started_at, ended_at, artifacts, prev_record_id)
    &&& plan.patch@ == joined_patch(artifacts)
    &&& zstd_encoded(encode_utf8(plan.patch@)) == Some(plan.compressed@)
    &&& packed_text(plan.compressed@) == Some(plan.patch@)
}

/// Assembles the record of a batch from its artifacts.
///
/// Without artifacts there is no record. Otherwise the record totals its
/// files, links to `prev_record_id`, and takes its identifier from the
/// project id, the start and its files; its patch is the patches of the
/// files joined, and is compressed for the store. It fails exactly where
/// the totals do not fit, or else the compressor makes no frame of the
/// patch.
pub fn assemble_record(
    project_id: &str,
    started_at: i64,
    ended_at: i64,
    artifacts: Vec<FileArtifact>,
    prev_record_id: Option<String>,
) -> (r: Result<Option<RecordPlan>, WatchError>)
    ensures
        ({
            let files = artifacts_view(artifacts@);
            match r {
                Ok(None) => files.len() == 0,
                Ok(Some(plan)) => {
                    &&& files.len() > 0
                    &&& totals_fit(records_of(files))
                    &&& plan.artifacts == artifacts
                    &&& plans(
                        plan,
                        project_id@,
                        started_at,
                        ended_at,
                        files,
                        opt_str_view(prev_record_id),
                    )
                },
                Err(WatchError::StatsOverflow) => files.len() > 0 && !totals_fit(
                    records_of(files),
                ),
                Err(WatchError::Pipeline(e)) => {
                    &&& e is Compress
                    &&& files.len() > 0
                    &&& totals_fit(records_of(files))
                    &&& !text_packs(joined_patch(files))
                },
                Err(_) => false,
            }
        }),
{
    if artifacts.len() == 0 {
        return Ok(None);
    }
    let records = file_records(artifacts.as_slice());
    let stats = match checked_aggregate_stats(records.as_slice()) {
        Some(stats) => stats,
        None => {
            return Err(WatchError::StatsOverflow);
        },
    };
    let record_id = generate_record_id(project_id, started_at, records.as_slice());
    let meta = RecordMeta {
        record_id,
        project_id: project_id.to_owned(),
        started_at,
        ended_at,
        files: records,
        stats,
        prev_record_id,
        tool_version: tool_version(),
    };
    let patch = join_patches(artifacts.as_slice());
    let compressed = match compress_patch(patch.as_str()) {
        Ok(frame) => frame,
        Err(e) => {
            return Err(WatchError::Pipeline(e));
        },
    };
    Ok(Some(RecordPlan { meta, patch, compressed, artifacts }))
}

/// Plans the record of a batch from its files with both sides and the
/// identifier of the latest record.
///
/// The files are taken in the order of their paths, each path once, so
/// that the record lists them so whatever order they come in. A batch in
/// which no file changed has no record. The outcome is fixed by the files:
/// the plan fails exactly where the totals do not fit, or else the
/// compressor makes no frame of the patch.
pub fn plan_batch(
    project_id: &str,
    started_at: i64,
    ended_at: i64,
    files: Vec<BatchFile>,
    prev_record_id: Option<String>,
) -> (r: Result<Option<RecordPlan>, WatchError>)
    ensures
        ({
            let artifacts = artifacts_from(ordered(batch_view(files@)));
            match r {
                Ok(None) => artifacts.len() == 0,
                Ok(Some(plan)) => {
                    &&& artifacts.len() > 0
                    &&& totals_fit(records_of(artifacts))
                    &&& plans(
                        plan,
                        project_id@,
                        started_at,
                        ended_at,
                        artifacts,
                        opt_str_view(prev_record_id),
                    )
                    &&& paths_ascend(plan.meta@.files)
                    &&& forall|i: int|
                        0 <= i < artifacts.len() ==> (#[trigger] artifacts[i]).record.wf()
                            && sides_hashed(artifacts[i])
                },
                Err(WatchError::StatsOverflow) => {
                    &&& artifacts.len() > 0
                    &&& !totals_fit(records_of(artifacts))
                },
                Err(WatchError::Pipeline(e)) => {
                    &&& e is Compress
                    &&& artifacts.len() > 0
                    &&& totals_fit(records_of(artifacts))
                    &&& !text_packs(joined_patch(artifacts))
                },
                Err(_) => false,
            }
        }),
{
    let sorted = order_files(files);
    let artifacts = artifacts_of(sorted.as_slice());
    let ghost built = artifacts_view(artifacts@);
    proof {
        lemma_artifacts_ascend(batch_view(sorted@));
        assert forall|i: int| 0 <= i < built.len() implies (#[trigger] built[i]).record.wf()
            && sides_hashed(built[i]) by {
            assert(built[i] == artifacts@[i]@);
        }
    }
    assemble_record(project_id, started_at, ended_at, artifacts, prev_record_id)
}

/// Whether a batch commits a record to a store: every file can be read,
/// some file changed, the totals fit, the patch compresses, and the commit
/// goes through.
pub open spec fn records(
    state: StoreState,
    started_at: i64,
    ended_at: i64,
    files: Seq<TrackedFileView>,
) -> bool {
    let artifacts = artifacts_for(state, files);
    &&& all_stored(state, files)
    &&& artifacts.len() > 0
    &&& totals_fit(records_of(artifacts))
    &&& text_packs(joined_patch(artifacts))
    &&& commits(
        state,
        meta_of(
            state.project_id,
            started_at,
            ended_at,
            artifacts,
            latest_record_id_of(state.records),
        ),
        artifacts,
    )
}

/// Turns one batch into a record and commits it.
///
/// `files` are the project files of the batch with what is there now, and
/// `started_at` and `ended_at` the batch's span in milliseconds since the
/// epoch. A batch in which no file changed commits nothing and leaves the
/// store as it is. Otherwise the record lists the changed files in the
/// order of their paths, each path once, links to the record that was the
/// latest before, takes its identifier from the project id, the start and
/// its files, and is committed with the blobs and the compressed patch;
/// the project's registry entry is refreshed as seen at `now` (seconds
/// since the epoch).
///
/// Each failure has its cause, and all but a blob that does not compress
/// leave the store as it is. Where a blob does not compress, no record is
/// committed and no snapshot pointer moves, though blobs stored before it
/// stay.
pub fn process_batch(
    engine: &mut StorageEngine,
    started_at: i64,
    ended_at: i64,
    files: &[TrackedFile],
    now: i64,
) -> (r: Result<Option<BatchOutcome>, WatchError>)
    requires
        old(engine).wf(),
    ensures
        final(engine).wf(),
        ({
            let before = old(engine).state();
            let after = final(engine).state();
            let given = tracked_view(files@);
            let artifacts = artifacts_for(before, given);
            let meta = meta_of(
                before.project_id,
                started_at,
                ended_at,
                artifacts,
                latest_record_id_of(before.records),
            );
            match r {
                Ok(None) => {
                    &&& all_stored(before, given)
                    &&& artifacts.len() == 0
                    &&& after == before
                },
                Ok(Some(outcome)) => {
                    &&& all_stored(before, given)
                    &&& artifacts.len() > 0
                    &&& outcome.meta@ == meta
                    &&& paths_ascend(outcome.meta@.files)
                    &&& outcome.patch@ == joined_patch(artifacts)
                    &&& after.records.len() == before.records.len() + 1
                    &&& after.records.drop_last() == before.records
                    &&& after.records.last().meta == meta
                    &&& packed_text(after.records.last().patch) == Some(outcome.patch@)
                    &&& after == (StoreState {
                        blobs: blobs_after(before.blobs, artifacts),
                        records: after.records,
                        snapshots: apply_files(
                            before.snapshots,
                            records_of(artifacts),
                            meta.record_id,
                            ended_at,
                        ),
                        registry: registry_touched(
                            before.registry,
                            ProjectEntryView {
                                project_id: before.project_id,
                                path: before.project_root,
                                last_seen: now,
                            },
                        ),
                        ..before
                    })
                },
                Err(WatchError::Storage(StorageError::InvalidHash)) => {
                    &&& !all_stored(before, given)
                    &&& after == before
                },
                Err(WatchError::Storage(StorageError::BlobNotFound)) => {
                    &&& !all_stored(before, given)
                    &&& after == before
                },
                Err(WatchError::StatsOverflow) => {
                    &&& all_stored(before, given)
                    &&& artifacts.len() > 0
                    &&& !totals_fit(records_of(artifacts))
                    &&& after == before
                },
                Err(WatchError::Pipeline(PipelineError::Compress(_))) => {
                    &&& artifacts.len() > 0
                    &&& !text_packs(joined_patch(artifacts))
                    &&& after == before
                },
                Err(WatchError::Storage(StorageError::DuplicateRecord)) => {
                    &&& has_record(before.records, meta.record_id)
                    &&& after == before
                },
                Err(WatchError::Storage(StorageError::TimeSpanOverflow)) => {
                    &&& !span_fits(meta)
                    &&& after == before
                },
                Err(WatchError::Storage(StorageError::Compress(_))) => {
                    &&& exists|i: int|
                        0 <= i < artifacts.len() && !artifact_packs(
                            before.blobs,
                            #[trigger] artifacts[i],
                        )
                    &&& after == (StoreState { blobs: after.blobs, ..before })
                    &&& grown_from(before.blobs, after.blobs, artifacts)
                },
                Err(_) => false,
            }
        }),
        records(old(engine).state(), started_at, ended_at, tracked_view(files@)) ==> r matches Ok(
            Some(_),
        ),
        all_stored(old(engine).state(), tracked_view(files@)) && artifacts_for(
            old(engine).state(),
            tracked_view(files@),
        ).len() == 0 ==> r matches Ok(None),
        sound(old(engine).state()) ==> sound(final(engine).state()) && all_stored(
            old(engine).state(),
            tracked_view(files@),
        ),
{
    let ghost before = engine.state();
    let found = match gather(files, engine) {
        Ok(found) => found,
        Err(e) => {
            return Err(e);
        },
    };
    let prev_record_id = engine.latest_record_id();
    let plan = match plan_batch(engine.project_id(), started_at, ended_at, found, prev_record_id) {
        Ok(Some(plan)) => plan,
        Ok(None) => {
            return Ok(None);
        },
        Err(e) => {
            return Err(e);
        },
    };
    let ghost built = artifacts_view(plan.artifacts@);
    match engine.commit_record(&plan.meta, plan.compressed.as_slice(), plan.artifacts.as_slice()) {
        Ok(()) => {},
        Err(e) => {
            proof {
                assert forall|i: int| 0 <= i < built.len() implies artifact_storable(
                    #[trigger] built[i],
                ) by {
                    assert(sides_hashed(built[i]));
                }
                if sound(before) {
                    lemma_blobs_keep_sound(before, engine.state(), built);
                }
            }
            return Err(WatchError::Storage(e));
        },
    }
    proof {
        if sound(before) {
            lemma_commit_keeps_sound(
                before,
                engine.state(),
                engine.state().records.last(),
                built,
            );
        }
    }
    engine.register_touch(now);
    Ok(Some(BatchOutcome { meta: plan.meta, patch: plan.patch }))
}

} // verus!

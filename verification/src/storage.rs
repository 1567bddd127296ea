//! The storage engine: blobs by content hash, committed records in order,
//! and the index of each path's current blob.
//!
//! The engine holds its tables in memory. What it decides (where a blob
//! lives, what a commit changes, what a query returns) is what a persistent
//! store has to do on disk.

use vstd::prelude::*;
use vstd::string::StringExecFns;

use crate::models::{
    opt_str_view, records_view, FileOp, FileRecord, FileRecordView, RecordMeta, RecordMetaView,
    RecordStats, SnapshotInfo, TimelineEntry, TimelineEntryView,
};
use crate::pipeline::{
    opt_bytes_view, zstd_decode, zstd_decoded, zstd_encode, zstd_encoded, FileArtifact,
    FileArtifactView,
};
use crate::registry::{entries_view, registry_touched, touch_registry, ProjectEntryView};
use crate::strmap::StrMap;
use crate::text::str_eq;
use crate::timeline::{in_range, lemma_placed, newest_first, place, placed, timeline_view, within};
use crate::util::{
    compute_project_id, content_hash, has_shard, hash_bytes, project_id_of, shard_of,
};

pub use crate::registry::{find_project_entry, ProjectEntry};

verus! {

/// Why a storage operation was refused.
#[derive(Debug)]
pub enum StorageError {
    /// The hash has no two-byte prefix to shard its blob by.
    InvalidHash,
    /// A blob that is not stored yet was asked for without its content.
    MissingContent,
    /// No blob is stored under the hash.
    BlobNotFound,
    /// No record is stored under the identifier.
    RecordNotFound,
    /// A stored blob could not be decompressed; the message is kept.
    CorruptBlob(String),
    /// A blob could not be compressed; the message is kept.
    Compress(String),
    /// A record with this identifier is committed already.
    DuplicateRecord,
    /// The record's end and start are further apart than `i64` can hold.
    TimeSpanOverflow,
}

impl StorageError {
    /// The sentence that tells the user of the error.
    pub open spec fn message_text(&self) -> Seq<char> {
        match self {
            StorageError::InvalidHash => "hash is too short to locate a blob"@,
            StorageError::MissingContent =>
                "blob content missing while attempting to persist new blob"@,
            StorageError::BlobNotFound => "blob not found"@,
            StorageError::RecordNotFound => "record not found"@,
            StorageError::CorruptBlob(detail) => "blob is corrupt: "@ + detail@,
            StorageError::Compress(detail) => "failed to compress blob: "@ + detail@,
            StorageError::DuplicateRecord => "record is committed already"@,
            StorageError::TimeSpanOverflow => "record time span is out of range"@,
        }
    }

    /// A sentence for the user.
    pub fn message(&self) -> (s: String)
        ensures
            s@ == self.message_text(),
    {
        match self {
            StorageError::InvalidHash => "hash is too short to locate a blob".to_owned(),
            StorageError::MissingContent =>
                "blob content missing while attempting to persist new blob".to_owned(),
            StorageError::BlobNotFound => "blob not found".to_owned(),
            StorageError::RecordNotFound => "record not found".to_owned(),
            StorageError::CorruptBlob(detail) => "blob is corrupt: ".to_owned().concat(
                detail.as_str(),
            ),
            StorageError::Compress(detail) => "failed to compress blob: ".to_owned().concat(
                detail.as_str(),
            ),
            StorageError::DuplicateRecord => "record is committed already".to_owned(),
            StorageError::TimeSpanOverflow => "record time span is out of range".to_owned(),
        }
    }
}

/// `base` and `name` as one path: joined by a slash.
pub open spec fn join_path(base: Seq<char>, name: Seq<char>) -> Seq<char> {
    base + "/"@ + name
}

/// Joins a directory and a name with a slash.
pub fn join(base: &str, name: &str) -> (p: String)
    ensures
        p@ == join_path(base@, name@),
{
    base.to_owned().concat("/").concat(name)
}

/// The mathematical content of [`StoragePaths`].
pub struct StoragePathsView {
    pub project_dir: Seq<char>,
    pub records_dir: Seq<char>,
    pub blobs_dir: Seq<char>,
    pub meta_dir: Seq<char>,
    pub timeline_db: Seq<char>,
    pub registry_file: Seq<char>,
}

/// Where a project's state lives below the storage root.
#[derive(Debug)]
pub struct StoragePaths {
    pub project_dir: String,
    pub records_dir: String,
    pub blobs_dir: String,
    pub meta_dir: String,
    pub timeline_db: String,
    pub registry_file: String,
}

impl View for StoragePaths {
    type V = StoragePathsView;

    open spec fn view(&self) -> StoragePathsView {
        StoragePathsView {
            project_dir: self.project_dir@,
            records_dir: self.records_dir@,
            blobs_dir: self.blobs_dir@,
            meta_dir: self.meta_dir@,
            timeline_db: self.timeline_db@,
            registry_file: self.registry_file@,
        }
    }
}

/// The layout of a project's state below a storage root.
pub open spec fn layout_of(storage_root: Seq<char>, project_id: Seq<char>) -> StoragePathsView {
    let project_dir = join_path(storage_root, project_id);
    StoragePathsView {
        project_dir,
        records_dir: join_path(project_dir, "records"@),
        blobs_dir: join_path(project_dir, "blobs"@),
        meta_dir: join_path(project_dir, "meta"@),
        timeline_db: join_path(project_dir, "timeline.db"@),
        registry_file: join_path(storage_root, "registry.json"@),
    }
}

impl Clone for StoragePaths {
    fn clone(&self) -> (r: StoragePaths)
        ensures
            r@ == self@,
    {
        StoragePaths {
            project_dir: self.project_dir.clone(),
            records_dir: self.records_dir.clone(),
            blobs_dir: self.blobs_dir.clone(),
            meta_dir: self.meta_dir.clone(),
            timeline_db: self.timeline_db.clone(),
            registry_file: self.registry_file.clone(),
        }
    }
}

impl StoragePaths {
    /// The layout of a project below a storage root.
    pub fn new(storage_root: &str, project_id: &str) -> (paths: StoragePaths)
        ensures
            paths@ == layout_of(storage_root@, project_id@),
    {
        let project_dir = join(storage_root, project_id);
        let records_dir = join(project_dir.as_str(), "records");
        let blobs_dir = join(project_dir.as_str(), "blobs");
        let meta_dir = join(project_dir.as_str(), "meta");
        let timeline_db = join(project_dir.as_str(), "timeline.db");
        let registry_file = join(storage_root, "registry.json");
        StoragePaths { project_dir, records_dir, blobs_dir, meta_dir, timeline_db, registry_file }
    }

    /// The file of a blob: below the blob store, in the directory named by
    /// the first two bytes of its hash, under the hash and `.zst`. A hash
    /// without such a prefix has no file.
    pub fn blob_path(&self, sha: &str) -> (r: Option<String>)
        ensures
            match r {
                Some(p) => has_shard(sha@) && p@ == join_path(
                    join_path(self.blobs_dir@, shard_of(sha@)),
                    sha@ + ".zst"@,
                ),
                None => !has_shard(sha@),
            },
    {
        if sha.is_char_boundary(2) {
            let (shard, _) = sha.split_at(2);
            proof {
                vstd::utf8::encode_utf8_decode_utf8(shard@);
            }
            let dir = join(self.blobs_dir.as_str(), shard);
            let name = sha.to_owned().concat(".zst");
            Some(join(dir.as_str(), name.as_str()))
        } else {
            None
        }
    }

    /// The directory of a record.
    pub fn record_dir(&self, record_id: &str) -> (p: String)
        ensures
            p@ == join_path(self.records_dir@, record_id@),
    {
        join(self.records_dir.as_str(), record_id)
    }

    /// The metadata document of a record.
    pub fn record_meta_path(&self, record_id: &str) -> (p: String)
        ensures
            p@ == join_path(join_path(self.records_dir@, record_id@), "meta.json"@),
    {
        join(self.record_dir(record_id).as_str(), "meta.json")
    }

    /// The compressed patch of a record.
    pub fn record_patch_path(&self, record_id: &str) -> (p: String)
        ensures
            p@ == join_path(join_path(self.records_dir@, record_id@), "diff.patch.zst"@),
    {
        join(self.record_dir(record_id).as_str(), "diff.patch.zst")
    }
}

/// The mathematical content of a [`SnapshotRow`].
pub struct SnapshotView {
    pub sha: Seq<char>,
    pub record_id: Seq<char>,
    pub updated_at: i64,
}

/// The current blob of one path: its hash, the record that set it, and that
/// record's end in milliseconds since the epoch.
#[derive(Debug)]
pub struct SnapshotRow {
    pub sha: String,
    pub record_id: String,
    pub updated_at: i64,
}

impl View for SnapshotRow {
    type V = SnapshotView;

    open spec fn view(&self) -> SnapshotView {
        SnapshotView { sha: self.sha@, record_id: self.record_id@, updated_at: self.updated_at }
    }
}

/// The mathematical content of a [`StoredRecord`].
pub struct StoredRecordView {
    pub meta: RecordMetaView,
    pub patch: Seq<u8>,
    pub diff_hash: Seq<char>,
    pub duration_ms: i64,
}

/// A committed record as the store keeps it: its metadata, its compressed
/// patch, the content hash of that patch, and its duration.
#[derive(Debug)]
pub struct StoredRecord {
    pub meta: RecordMeta,
    pub patch: Vec<u8>,
    pub diff_hash: String,
    pub duration_ms: i64,
}

impl View for StoredRecord {
    type V = StoredRecordView;

    open spec fn view(&self) -> StoredRecordView {
        StoredRecordView {
            meta: self.meta@,
            patch: self.patch@,
            diff_hash: self.diff_hash@,
            duration_ms: self.duration_ms,
        }
    }
}

/// Whether the span of a record fits in `i64` milliseconds.
pub open spec fn span_fits(meta: RecordMetaView) -> bool {
    i64::MIN <= meta.ended_at - meta.started_at <= i64::MAX
}

/// A record as it is stored with the given compressed patch.
pub open spec fn stored_of(meta: RecordMetaView, patch: Seq<u8>) -> StoredRecordView {
    StoredRecordView {
        meta,
        patch,
        diff_hash: content_hash(patch),
        duration_ms: (meta.ended_at - meta.started_at) as i64,
    }
}

impl StoredRecord {
    /// The row of a record: its metadata and compressed patch, with the
    /// content hash of the patch and the record's duration. A record whose
    /// span does not fit has no row.
    pub fn new(meta: &RecordMeta, patch_bytes: &[u8]) -> (r: Option<StoredRecord>)
        ensures
            match r {
                Some(record) => span_fits(meta@) && record@ == stored_of(meta@, patch_bytes@),
                None => !span_fits(meta@),
            },
    {
        match meta.ended_at.checked_sub(meta.started_at) {
            Some(duration_ms) => Some(
                StoredRecord {
                    meta: meta.clone(),
                    patch: vstd::slice::slice_to_vec(patch_bytes),
                    diff_hash: hash_bytes(patch_bytes),
                    duration_ms,
                },
            ),
            None => None,
        }
    }
}

/// The side of an artifact that is to be stored: its hash and its blob,
/// where it has both.
pub fn side_to_store<'a>(sha: &'a Option<String>, blob: &'a Option<Vec<u8>>) -> (r: Option<
    (&'a str, &'a Vec<u8>),
>)
    ensures
        match r {
            Some((s, b)) => *sha matches Some(hash) && hash@ == s@ && *blob == Some(*b),
            None => *sha is None || *blob is None,
        },
{
    match (sha, blob) {
        (Some(sha), Some(blob)) => Some((sha.as_str(), blob)),
        _ => None,
    }
}

/// The contents of a list of stored records.
pub open spec fn stored_view(records: Seq<StoredRecord>) -> Seq<StoredRecordView> {
    records.map_values(|r: StoredRecord| r@)
}

/// What a store holds.
pub struct StoreState {
    pub project_id: Seq<char>,
    pub project_root: Seq<char>,
    pub paths: StoragePathsView,
    /// The content of each blob, by its hash.
    pub blobs: Map<Seq<char>, Seq<u8>>,
    /// The committed records, in the order of their commits.
    pub records: Seq<StoredRecordView>,
    /// The current blob of each tracked path.
    pub snapshots: Map<Seq<char>, SnapshotView>,
    /// The registry of known projects.
    pub registry: Seq<ProjectEntryView>,
}

/// The mathematical content of a [`SnapshotChange`].
pub enum SnapshotChangeView {
    Point { path: Seq<char>, sha: Seq<char> },
    Remove { path: Seq<char> },
    Keep,
}

/// What one file record of a commit does to the snapshot index.
#[derive(Debug)]
pub enum SnapshotChange {
    /// The path points at this hash from now on.
    Point { path: String, sha: String },
    /// The path leaves the index.
    Remove { path: String },
    /// Nothing changes.
    Keep,
}

impl View for SnapshotChange {
    type V = SnapshotChangeView;

    open spec fn view(&self) -> SnapshotChangeView {
        match self {
            SnapshotChange::Point { path, sha } => SnapshotChangeView::Point {
                path: path@,
                sha: sha@,
            },
            SnapshotChange::Remove { path } => SnapshotChangeView::Remove { path: path@ },
            SnapshotChange::Keep => SnapshotChangeView::Keep,
        }
    }
}

/// What a file record does to the snapshot index: a deletion removes the
/// path, an addition or modification points it at the after-hash.
pub open spec fn change_of(file: FileRecordView) -> SnapshotChangeView {
    match file.op {
        FileOp::Deleted => SnapshotChangeView::Remove { path: file.path },
        _ => match file.after_sha {
            Some(sha) => SnapshotChangeView::Point { path: file.path, sha },
            None => SnapshotChangeView::Keep,
        },
    }
}

/// The snapshot index after a change made by the record `record_id` that
/// ended at `at`.
pub open spec fn index_changed(
    index: Map<Seq<char>, SnapshotView>,
    change: SnapshotChangeView,
    record_id: Seq<char>,
    at: i64,
) -> Map<Seq<char>, SnapshotView> {
    match change {
        SnapshotChangeView::Point { path, sha } => index.insert(
            path,
            SnapshotView { sha, record_id, updated_at: at },
        ),
        SnapshotChangeView::Remove { path } => index.remove(path),
        SnapshotChangeView::Keep => index,
    }
}

/// The snapshot index after one file record of a commit: a deleted path
/// leaves it, an added or modified path points at its after-hash.
pub open spec fn apply_file(
    index: Map<Seq<char>, SnapshotView>,
    file: FileRecordView,
    record_id: Seq<char>,
    at: i64,
) -> Map<Seq<char>, SnapshotView> {
    index_changed(index, change_of(file), record_id, at)
}

/// What a file record of a commit does to the snapshot index.
pub fn snapshot_change(file: &FileRecord) -> (change: SnapshotChange)
    ensures
        change@ == change_of(file@),
{
    match file.op {
        FileOp::Deleted => SnapshotChange::Remove { path: file.path.clone() },
        _ => match &file.after_sha {
            Some(sha) => SnapshotChange::Point { path: file.path.clone(), sha: sha.clone() },
            None => SnapshotChange::Keep,
        },
    }
}

/// The snapshot index after the file records of a commit, applied in order.
pub open spec fn apply_files(
    index: Map<Seq<char>, SnapshotView>,
    files: Seq<FileRecordView>,
    record_id: Seq<char>,
    at: i64,
) -> Map<Seq<char>, SnapshotView>
    decreases files.len(),
{
    if files.len() == 0 {
        index
    } else {
        apply_file(apply_files(index, files.drop_last(), record_id, at), files.last(), record_id, at)
    }
}

/// The snapshot index that a history of commits leaves behind.
pub open spec fn replay(records: Seq<StoredRecordView>) -> Map<Seq<char>, SnapshotView>
    decreases records.len(),
{
    if records.len() == 0 {
        Map::empty()
    } else {
        let last = records.last().meta;
        apply_files(replay(records.drop_last()), last.files, last.record_id, last.ended_at)
    }
}

/// Whether some committed record has the identifier.
pub open spec fn has_record(records: Seq<StoredRecordView>, record_id: Seq<char>) -> bool {
    exists|i: int| 0 <= i < records.len() && (#[trigger] records[i]).meta.record_id == record_id
}

/// Whether no two committed records share an identifier.
pub open spec fn distinct_records(records: Seq<StoredRecordView>) -> bool {
    forall|i: int, j: int|
        0 <= i < j < records.len() ==> (#[trigger] records[i]).meta.record_id != (
        #[trigger] records[j]).meta.record_id
}

/// Whether each stored record carries the duration of its metadata and the
/// content hash of its patch.
pub open spec fn records_consistent(records: Seq<StoredRecordView>) -> bool {
    forall|i: int|
        0 <= i < records.len() ==> {
            let r = #[trigger] records[i];
            &&& r.duration_ms == r.meta.ended_at - r.meta.started_at
            &&& r.diff_hash == content_hash(r.patch)
        }
}

/// The blob store after a blob was asked for: a hash that is stored stays
/// as it is, a new one is stored with the given content.
pub open spec fn blob_ensured(
    blobs: Map<Seq<char>, Seq<u8>>,
    sha: Seq<char>,
    content: Seq<u8>,
) -> Map<Seq<char>, Seq<u8>> {
    if blobs.contains_key(sha) {
        blobs
    } else {
        blobs.insert(sha, content)
    }
}

/// The contents of the snapshot table.
pub open spec fn snapshot_index(rows: Map<Seq<char>, SnapshotRow>) -> Map<Seq<char>, SnapshotView> {
    rows.map_values(|row: SnapshotRow| row@)
}

/// The contents of a list of artifacts.
pub open spec fn artifacts_view(artifacts: Seq<FileArtifact>) -> Seq<FileArtifactView> {
    artifacts.map_values(|a: FileArtifact| a@)
}

/// The blob store after one side of an artifact was seen to: a side with
/// both a hash and a blob is ensured, any other leaves the store as it is.
pub open spec fn side_ensured(
    blobs: Map<Seq<char>, Seq<u8>>,
    sha: Option<Seq<char>>,
    blob: Option<Seq<u8>>,
) -> Map<Seq<char>, Seq<u8>> {
    match (sha, blob) {
        (Some(s), Some(b)) => blob_ensured(blobs, s, b),
        _ => blobs,
    }
}

/// Whether a side that is to be stored has a hash that locates a blob.
pub open spec fn side_storable(sha: Option<Seq<char>>, blob: Option<Seq<u8>>) -> bool {
    sha is Some && blob is Some ==> has_shard(sha->0)
}

/// Whether a side that is to be stored needs no compressing, or compresses:
/// its hash is stored already, or the compressor makes a frame of its blob.
pub open spec fn side_packs(
    blobs: Map<Seq<char>, Seq<u8>>,
    sha: Option<Seq<char>>,
    blob: Option<Seq<u8>>,
) -> bool {
    sha matches Some(s) && blob matches Some(b) ==> blobs.contains_key(s) || zstd_encoded(b)
        is Some
}

/// Whether both sides of an artifact need no compressing, or compress.
pub open spec fn artifact_packs(blobs: Map<Seq<char>, Seq<u8>>, a: FileArtifactView) -> bool {
    side_packs(blobs, a.record.before_sha, a.before_blob) && side_packs(
        blobs,
        a.record.after_sha,
        a.after_blob,
    )
}

/// Whether a commit goes through: the identifier is new, the span fits,
/// every side to store has a hash that locates a blob, and every blob that
/// is new compresses.
pub open spec fn commits(
    state: StoreState,
    meta: RecordMetaView,
    artifacts: Seq<FileArtifactView>,
) -> bool {
    &&& !has_record(state.records, meta.record_id)
    &&& span_fits(meta)
    &&& forall|i: int| 0 <= i < artifacts.len() ==> artifact_storable(#[trigger] artifacts[i])
    &&& forall|i: int|
        0 <= i < artifacts.len() ==> artifact_packs(state.blobs, #[trigger] artifacts[i])
}

/// Whether both sides of an artifact can be stored.
pub open spec fn artifact_storable(a: FileArtifactView) -> bool {
    side_storable(a.record.before_sha, a.before_blob) && side_storable(
        a.record.after_sha,
        a.after_blob,
    )
}

/// Whether an artifact has a side with this hash and this content.
pub open spec fn side_of(a: FileArtifactView, sha: Seq<char>, content: Seq<u8>) -> bool {
    ||| (a.record.before_sha == Some(sha) && a.before_blob == Some(content))
    ||| (a.record.after_sha == Some(sha) && a.after_blob == Some(content))
}

/// Whether a blob store grew out of another by sides of the given
/// artifacts alone: what was stored is stored unchanged, and every new blob
/// is a side of an artifact under that side's hash.
pub open spec fn grown_from(
    before: Map<Seq<char>, Seq<u8>>,
    after: Map<Seq<char>, Seq<u8>>,
    artifacts: Seq<FileArtifactView>,
) -> bool {
    &&& before.submap_of(after)
    &&& forall|sha: Seq<char>| #[trigger]
        after.contains_key(sha) ==> before.contains_key(sha) || exists|i: int|
            0 <= i < artifacts.len() && side_of(#[trigger] artifacts[i], sha, after[sha])
}

/// The blob store after the blobs of some artifacts were ensured: of each
/// artifact in order, the before-side first.
pub open spec fn blobs_after(
    blobs: Map<Seq<char>, Seq<u8>>,
    artifacts: Seq<FileArtifactView>,
) -> Map<Seq<char>, Seq<u8>>
    decreases artifacts.len(),
{
    if artifacts.len() == 0 {
        blobs
    } else {
        let a = artifacts.last();
        side_ensured(
            side_ensured(blobs_after(blobs, artifacts.drop_last()), a.record.before_sha, a.before_blob),
            a.record.after_sha,
            a.after_blob,
        )
    }
}

/// Asking for a blob twice is asking for it once: the second time the hash
/// is stored and the store stays as it is, whatever content is offered.
pub proof fn lemma_ensure_blob_idempotent(
    blobs: Map<Seq<char>, Seq<u8>>,
    sha: Seq<char>,
    content: Seq<u8>,
    again: Seq<u8>,
)
    ensures
        blob_ensured(blob_ensured(blobs, sha, content), sha, again) == blob_ensured(
            blobs,
            sha,
            content,
        ),
        blob_ensured(blobs, sha, content).contains_key(sha),
{
}

/// Ensuring blobs never changes or removes a blob that is stored: the
/// store only grows.
pub proof fn lemma_blobs_after_extends(
    blobs: Map<Seq<char>, Seq<u8>>,
    artifacts: Seq<FileArtifactView>,
)
    ensures
        blobs.submap_of(blobs_after(blobs, artifacts)),
    decreases artifacts.len(),
{
    if artifacts.len() > 0 {
        lemma_blobs_after_extends(blobs, artifacts.drop_last());
    }
}

/// After the blobs of some artifacts were ensured, a blob is stored under
/// the hash of every side that has a hash and a blob.
pub proof fn lemma_blobs_after_stores(
    blobs: Map<Seq<char>, Seq<u8>>,
    artifacts: Seq<FileArtifactView>,
    i: int,
)
    requires
        0 <= i < artifacts.len(),
    ensures
        artifacts[i].record.before_sha is Some && artifacts[i].before_blob is Some
            ==> blobs_after(blobs, artifacts).contains_key(artifacts[i].record.before_sha->0),
        artifacts[i].record.after_sha is Some && artifacts[i].after_blob is Some ==> blobs_after(
            blobs,
            artifacts,
        ).contains_key(artifacts[i].record.after_sha->0),
    decreases artifacts.len(),
{
    if i < artifacts.len() - 1 {
        lemma_blobs_after_stores(blobs, artifacts.drop_last(), i);
        assert(artifacts.drop_last()[i] == artifacts[i]);
    }
}

/// The blob that a file record's after-hash names in a store, if one is
/// stored under it.
pub open spec fn blob_named(blobs: Map<Seq<char>, Seq<u8>>, file: FileRecordView) -> Option<
    Seq<u8>,
> {
    match file.after_sha {
        Some(sha) => if blobs.contains_key(sha) {
            Some(blobs[sha])
        } else {
            None
        },
        None => None,
    }
}

/// Two file records with one after-hash name one blob: equal content is
/// stored once, whichever records refer to it.
pub proof fn lemma_shared_hash_shared_blob(
    blobs: Map<Seq<char>, Seq<u8>>,
    one: FileRecordView,
    other: FileRecordView,
)
    requires
        one.after_sha == other.after_sha,
    ensures
        blob_named(blobs, one) == blob_named(blobs, other),
{
}

/// Whether the record at `i` is the latest: none ends later, and none that
/// was committed after it ends as late.
pub open spec fn is_latest(records: Seq<StoredRecordView>, i: int) -> bool {
    &&& 0 <= i < records.len()
    &&& forall|j: int|
        0 <= j < records.len() ==> (#[trigger] records[j]).meta.ended_at
            <= records[i].meta.ended_at
    &&& forall|j: int|
        i < j < records.len() ==> (#[trigger] records[j]).meta.ended_at
            < records[i].meta.ended_at
}

/// The identifier of the latest record, if any record is committed.
pub open spec fn latest_record_id_of(records: Seq<StoredRecordView>) -> Option<Seq<char>> {
    if records.len() == 0 {
        None
    } else {
        Some(records[choose|i: int| is_latest(records, i)].meta.record_id)
    }
}

/// At most one record is the latest.
pub proof fn lemma_latest_unique(records: Seq<StoredRecordView>, i: int, j: int)
    requires
        is_latest(records, i),
        is_latest(records, j),
    ensures
        i == j,
{
    if i < j {
        assert(records[j].meta.ended_at < records[i].meta.ended_at);
        assert(records[i].meta.ended_at <= records[j].meta.ended_at);
    } else if j < i {
        assert(records[i].meta.ended_at < records[j].meta.ended_at);
        assert(records[j].meta.ended_at <= records[i].meta.ended_at);
    }
}

/// The summary of a stored record.
pub open spec fn entry_of(record: StoredRecordView) -> TimelineEntryView {
    TimelineEntryView {
        record_id: record.meta.record_id,
        timestamp: record.meta.ended_at,
        files: record.meta.stats.files,
        lines_added: record.meta.stats.lines_added,
        lines_removed: record.meta.stats.lines_removed,
        duration_ms: record.duration_ms,
        notes: None,
    }
}

/// The summary of a record that has the given identifier, end, totals and
/// duration.
pub fn timeline_entry(record_id: &str, ended_at: i64, stats: &RecordStats, duration_ms: i64) -> (e:
    TimelineEntry)
    ensures
        e@ == (TimelineEntryView {
            record_id: record_id@,
            timestamp: ended_at,
            files: stats.files,
            lines_added: stats.lines_added,
            lines_removed: stats.lines_removed,
            duration_ms,
            notes: None,
        }),
{
    TimelineEntry {
        record_id: record_id.to_owned(),
        timestamp: ended_at,
        files: stats.files,
        lines_added: stats.lines_added,
        lines_removed: stats.lines_removed,
        duration_ms,
        notes: None,
    }
}

/// The timeline of some records: the summaries of those that end within the
/// bounds, from the newest to the oldest, and of those that end together the
/// one committed last first.
pub open spec fn timeline_of(
    records: Seq<StoredRecordView>,
    from: Option<i64>,
    to: Option<i64>,
) -> Seq<TimelineEntryView>
    decreases records.len(),
{
    if records.len() == 0 {
        Seq::empty()
    } else {
        let earlier = timeline_of(records.drop_last(), from, to);
        if in_range(records.last().meta.ended_at, from, to) {
            placed(earlier, entry_of(records.last()))
        } else {
            earlier
        }
    }
}

/// The first `limit` entries of a timeline, or all of it where there is no
/// limit or it has no more.
pub open spec fn limited(timeline: Seq<TimelineEntryView>, limit: Option<usize>) -> Seq<
    TimelineEntryView,
> {
    match limit {
        Some(n) => if n < timeline.len() {
            timeline.take(n as int)
        } else {
            timeline
        },
        None => timeline,
    }
}

/// A timeline is in order, holds the summary of every record that ends
/// within the bounds, and nothing else.
pub proof fn lemma_timeline_of(records: Seq<StoredRecordView>, from: Option<i64>, to: Option<i64>)
    ensures
        newest_first(timeline_of(records, from, to)),
        forall|i: int|
            0 <= i < records.len() && in_range((#[trigger] records[i]).meta.ended_at, from, to)
                ==> timeline_of(records, from, to).contains(entry_of(records[i])),
        forall|e: TimelineEntryView| #[trigger]
            timeline_of(records, from, to).contains(e) ==> exists|i: int|
                0 <= i < records.len() && in_range((#[trigger] records[i]).meta.ended_at, from, to)
                    && e == entry_of(records[i]),
    decreases records.len(),
{
    let out = timeline_of(records, from, to);
    if records.len() > 0 {
        let front = records.drop_last();
        let earlier = timeline_of(front, from, to);
        let last = records.last();
        lemma_timeline_of(front, from, to);
        if in_range(last.meta.ended_at, from, to) {
            lemma_placed(earlier, entry_of(last));
        }
        assert forall|i: int|
            0 <= i < records.len() && in_range(
                (#[trigger] records[i]).meta.ended_at,
                from,
                to,
            ) implies out.contains(entry_of(records[i])) by {
            if i < front.len() {
                assert(front[i] == records[i]);
                assert(earlier.contains(entry_of(front[i])));
            }
        }
        assert forall|e: TimelineEntryView| #[trigger] out.contains(e) implies exists|i: int|
            0 <= i < records.len() && in_range((#[trigger] records[i]).meta.ended_at, from, to)
                && e == entry_of(records[i]) by {
            if earlier.contains(e) {
                let i = choose|i: int|
                    0 <= i < front.len() && in_range(
                        (#[trigger] front[i]).meta.ended_at,
                        from,
                        to,
                    ) && e == entry_of(front[i]);
                assert(records[i] == front[i]);
            } else {
                assert(e == entry_of(last));
                assert(records[records.len() - 1] == last);
            }
        }
    }
}

/// Compresses the content of a blob for the store: the frame that the
/// compressor makes of it, which holds the content. It fails exactly where
/// the compressor makes no frame.
pub fn pack_blob(content: &[u8]) -> (r: Result<Vec<u8>, StorageError>)
    ensures
        match r {
            Ok(frame) => zstd_encoded(content@) == Some(frame@) && zstd_decoded(frame@)
                == Some(content@),
            Err(e) => e is Compress && zstd_encoded(content@) is None,
        },
{
    match zstd_encode(content) {
        Ok(frame) => Ok(frame),
        Err(detail) => Err(StorageError::Compress(detail)),
    }
}

/// Recovers the content of a blob from its stored frame: what the frame
/// holds. Bytes that hold nothing are corrupt.
pub fn unpack_blob(frame: &[u8]) -> (r: Result<Vec<u8>, StorageError>)
    ensures
        match r {
            Ok(content) => zstd_decoded(frame@) == Some(content@),
            Err(e) => e is CorruptBlob && zstd_decoded(frame@) is None,
        },
{
    match zstd_decode(frame) {
        Ok(content) => Ok(content),
        Err(detail) => Err(StorageError::CorruptBlob(detail)),
    }
}

/// The storage engine of one project.
pub struct StorageEngine {
    project_id: String,
    project_root: String,
    paths: StoragePaths,
    /// Compressed blobs by hash.
    blobs: StrMap<Vec<u8>>,
    records: Vec<StoredRecord>,
    /// Current blob by path.
    snapshots: StrMap<SnapshotRow>,
    registry: Vec<ProjectEntry>,
}

impl StorageEngine {
    /// What the store holds.
    pub closed spec fn state(&self) -> StoreState {
        StoreState {
            project_id: self.project_id@,
            project_root: self.project_root@,
            paths: self.paths@,
            blobs: Map::new(
                |sha: Seq<char>| self.blobs@.contains_key(sha),
                |sha: Seq<char>| zstd_decoded(self.blobs@[sha]@)->0,
            ),
            records: stored_view(self.records@),
            snapshots: snapshot_index(self.snapshots@),
            registry: entries_view(self.registry@),
        }
    }

    /// The store's invariant: every stored frame holds a blob, no two
    /// records share an identifier, and the snapshot index is what the
    /// committed records leave behind.
    pub closed spec fn wf(&self) -> bool {
        &&& self.blobs.wf()
        &&& self.snapshots.wf()
        &&& forall|sha: Seq<char>| #[trigger]
            self.blobs@.contains_key(sha) ==> zstd_decoded(self.blobs@[sha]@) is Some
        &&& distinct_records(stored_view(self.records@))
        &&& records_consistent(stored_view(self.records@))
        &&& snapshot_index(self.snapshots@) == replay(stored_view(self.records@))
    }

    /// What the invariant says of the state.
    pub proof fn lemma_wf(&self)
        requires
            self.wf(),
        ensures
            distinct_records(self.state().records),
            records_consistent(self.state().records),
            self.state().snapshots == replay(self.state().records),
    {
    }

    /// Opens an empty store for the project at `canonical_root`, whose state
    /// lives below `storage_root`, and enters the project into `registry` as
    /// seen at `now` (seconds since the epoch).
    pub fn open(
        canonical_root: &str,
        storage_root: &str,
        registry: Vec<ProjectEntry>,
        now: i64,
    ) -> (engine: StorageEngine)
        ensures
            engine.wf(),
            engine.state() == (StoreState {
                project_id: project_id_of(canonical_root@),
                project_root: canonical_root@,
                paths: layout_of(storage_root@, project_id_of(canonical_root@)),
                blobs: Map::empty(),
                records: Seq::empty(),
                snapshots: Map::empty(),
                registry: registry_touched(
                    entries_view(registry@),
                    ProjectEntryView {
                        project_id: project_id_of(canonical_root@),
                        path: canonical_root@,
                        last_seen: now,
                    },
                ),
            }),
    {
        let project_id = compute_project_id(canonical_root);
        let paths = StoragePaths::new(storage_root, project_id.as_str());
        let registry = touch_registry(registry, project_id.as_str(), canonical_root, now);
        let engine = StorageEngine {
            project_id,
            project_root: canonical_root.to_owned(),
            paths,
            blobs: StrMap::new(),
            records: Vec::new(),
            snapshots: StrMap::new(),
            registry,
        };
        assert(engine.state().blobs =~= Map::empty());
        assert(engine.state().snapshots =~= Map::empty());
        assert(engine.state().records =~= Seq::empty());
        engine
    }

    /// The project id.
    pub fn project_id(&self) -> (id: &str)
        ensures
            id@ == self.state().project_id,
    {
        self.project_id.as_str()
    }

    /// The canonical root of the project.
    pub fn project_root(&self) -> (root: &str)
        ensures
            root@ == self.state().project_root,
    {
        self.project_root.as_str()
    }

    /// Where the project's state lives.
    pub fn paths(&self) -> (paths: &StoragePaths)
        ensures
            paths@ == self.state().paths,
    {
        &self.paths
    }

    /// Reads a blob back: the content that was stored under the hash, for
    /// every hash that is stored. A hash that locates no blob is invalid,
    /// and one under which nothing is stored is not found.
    pub fn read_blob(&self, sha: &str) -> (r: Result<Vec<u8>, StorageError>)
        requires
            self.wf(),
        ensures
            match r {
                Ok(content) => {
                    &&& has_shard(sha@)
                    &&& self.state().blobs.contains_key(sha@)
                    &&& content@ == self.state().blobs[sha@]
                },
                Err(StorageError::InvalidHash) => !has_shard(sha@),
                Err(StorageError::BlobNotFound) => has_shard(sha@)
                    && !self.state().blobs.contains_key(sha@),
                Err(_) => false,
            },
    {
        if !sha.is_char_boundary(2) {
            return Err(StorageError::InvalidHash);
        }
        match self.blobs.get(sha) {
            None => Err(StorageError::BlobNotFound),
            Some(frame) => unpack_blob(frame.as_slice()),
        }
    }

    /// Whether a blob is stored under the hash.
    pub fn has_blob(&self, sha: &str) -> (r: bool)
        requires
            self.wf(),
        ensures
            r == self.state().blobs.contains_key(sha@),
    {
        self.blobs.contains_key(sha)
    }

    /// Stores a blob under its hash unless one is stored there already.
    ///
    /// A hash that is stored leaves the store as it is, whatever `content`
    /// holds. A new hash needs its content, which is stored compressed; it
    /// is refused only where the compressor makes no frame of the content.
    pub fn ensure_blob(&mut self, sha: &str, content: Option<&Vec<u8>>) -> (r: Result<
        (),
        StorageError,
    >)
        requires
            old(self).wf(),
        ensures
            final(self).wf(),
            match r {
                Ok(()) => {
                    &&& has_shard(sha@)
                    &&& old(self).state().blobs.contains_key(sha@) || content is Some
                    &&& final(self).state() == (StoreState {
                        blobs: if content is Some {
                            blob_ensured(old(self).state().blobs, sha@, content->0@)
                        } else {
                            old(self).state().blobs
                        },
                        ..old(self).state()
                    })
                },
                Err(e) => {
                    &&& final(self).state() == old(self).state()
                    &&& match e {
                        StorageError::InvalidHash => !has_shard(sha@),
                        StorageError::MissingContent => has_shard(sha@)
                            && !old(self).state().blobs.contains_key(sha@) && content is None,
                        StorageError::Compress(_) => {
                            &&& has_shard(sha@)
                            &&& !old(self).state().blobs.contains_key(sha@)
                            &&& content matches Some(c) && zstd_encoded(c@) is None
                        },
                        _ => false,
                    }
                },
            },
            has_shard(sha@) && (old(self).state().blobs.contains_key(sha@) || (content matches Some(
                c,
            ) && zstd_encoded(c@) is Some)) ==> r is Ok,
    {
        if !sha.is_char_boundary(2) {
            return Err(StorageError::InvalidHash);
        }
        if self.blobs.contains_key(sha) {
            return Ok(());
        }
        let data = match content {
            Some(data) => data,
            None => {
                return Err(StorageError::MissingContent);
            },
        };
        match pack_blob(data.as_slice()) {
            Ok(frame) => {
                let ghost before = self.blobs@;
                self.blobs.insert(sha.to_owned(), frame);
                proof {
                    assert forall|k: Seq<char>| #[trigger]
                        self.blobs@.contains_key(k) implies zstd_decoded(self.blobs@[k]@)
                        is Some by {
                        if k != sha@ {
                            assert(before.contains_key(k));
                        }
                    }
                    assert(self.state().blobs =~= old(self).state().blobs.insert(sha@, data@));
                }
                Ok(())
            },
            Err(e) => Err(e),
        }
    }

    /// Sees to one side of an artifact: stores its blob under its hash where
    /// it has both.
    fn ensure_side(&mut self, sha: &Option<String>, blob: &Option<Vec<u8>>) -> (r: Result<
        (),
        StorageError,
    >)
        requires
            old(self).wf(),
        ensures
            final(self).wf(),
            match r {
                Ok(()) => {
                    &&& side_storable(opt_str_view(*sha), opt_bytes_view(*blob))
                    &&& final(self).state() == (StoreState {
                        blobs: side_ensured(
                            old(self).state().blobs,
                            opt_str_view(*sha),
                            opt_bytes_view(*blob),
                        ),
                        ..old(self).state()
                    })
                },
                Err(e) => {
                    &&& final(self).state() == old(self).state()
                    &&& match e {
                        StorageError::InvalidHash => !side_storable(
                            opt_str_view(*sha),
                            opt_bytes_view(*blob),
                        ),
                        StorageError::Compress(_) => !side_packs(
                            old(self).state().blobs,
                            opt_str_view(*sha),
                            opt_bytes_view(*blob),
                        ),
                        _ => false,
                    }
                },
            },
    {
        match side_to_store(sha, blob) {
            Some((sha, blob)) => self.ensure_blob(sha, Some(blob)),
            None => Ok(()),
        }
    }

    /// The position of a record, if it is committed.
    fn record_position(&self, record_id: &str) -> (r: Option<usize>)
        ensures
            match r {
                Some(i) => {
                    &&& i < self.state().records.len()
                    &&& self.state().records[i as int].meta.record_id == record_id@
                },
                None => !has_record(self.state().records, record_id@),
            },
    {
        let mut i: usize = 0;
        while i < self.records.len()
            invariant
                i <= self.records.len(),
                forall|j: int|
                    0 <= j < i ==> (#[trigger] stored_view(self.records@)[j]).meta.record_id
                        != record_id@,
            decreases self.records.len() - i,
        {
            if str_eq(self.records[i].meta.record_id.as_str(), record_id) {
                return Some(i);
            }
            i = i + 1;
        }
        None
    }

    /// Commits a record: its blobs, its row, and the snapshot pointer of
    /// each of its files.
    ///
    /// A record whose identifier is committed already, or whose time span
    /// does not fit, is refused and nothing changes. The blobs of the
    /// artifacts are ensured next; where that fails, blobs stored so far
    /// stay, and the records and the snapshot index are as before. Then the
    /// record is appended, and for each of its files in order an added or
    /// modified path points at its after-hash and a deleted path leaves the
    /// index.
    pub fn commit_record(
        &mut self,
        meta: &RecordMeta,
        patch_bytes: &[u8],
        artifacts: &[FileArtifact],
    ) -> (r: Result<(), StorageError>)
        requires
            old(self).wf(),
        ensures
            final(self).wf(),
            match r {
                Ok(()) => {
                    &&& !has_record(old(self).state().records, meta.record_id@)
                    &&& span_fits(meta@)
                    &&& forall|i: int|
                        0 <= i < artifacts@.len() ==> artifact_storable(
                            #[trigger] artifacts_view(artifacts@)[i],
                        )
                    &&& final(self).state() == (StoreState {
                        blobs: blobs_after(old(self).state().blobs, artifacts_view(artifacts@)),
                        records: old(self).state().records.push(stored_of(meta@, patch_bytes@)),
                        snapshots: apply_files(
                            old(self).state().snapshots,
                            meta@.files,
                            meta.record_id@,
                            meta.ended_at,
                        ),
                        ..old(self).state()
                    })
                },
                Err(e) => {
                    &&& final(self).state() == (StoreState {
                        blobs: final(self).state().blobs,
                        ..old(self).state()
                    })
                    &&& match e {
                        StorageError::DuplicateRecord => has_record(
                            old(self).state().records,
                            meta.record_id@,
                        ) && final(self).state() == old(self).state(),
                        StorageError::TimeSpanOverflow => !has_record(
                            old(self).state().records,
                            meta.record_id@,
                        ) && !span_fits(meta@) && final(self).state() == old(self).state(),
                        StorageError::InvalidHash => exists|i: int|
                            0 <= i < artifacts@.len() && !artifact_storable(
                                #[trigger] artifacts_view(artifacts@)[i],
                            ),
                        StorageError::Compress(_) => exists|i: int|
                            0 <= i < artifacts@.len() && !artifact_packs(
                                old(self).state().blobs,
                                #[trigger] artifacts_view(artifacts@)[i],
                            ),
                        _ => false,
                    }
                },
            },
            has_record(old(self).state().records, meta.record_id@) ==> r matches Err(
                StorageError::DuplicateRecord,
            ),
            commits(old(self).state(), meta@, artifacts_view(artifacts@)) ==> r is Ok,
            grown_from(
                old(self).state().blobs,
                final(self).state().blobs,
                artifacts_view(artifacts@),
            ),
    {
        if self.record_position(meta.record_id.as_str()).is_some() {
            return Err(StorageError::DuplicateRecord);
        }
        let record = match StoredRecord::new(meta, patch_bytes) {
            Some(record) => record,
            None => {
                return Err(StorageError::TimeSpanOverflow);
            },
        };
        let ghost pre = self.state();
        let ghost all = artifacts_view(artifacts@);
        let mut i: usize = 0;
        while i < artifacts.len()
            invariant
                i <= artifacts.len(),
                self.wf(),
                pre == old(self).state(),
                all == artifacts_view(artifacts@),
                self.state() == (StoreState {
                    blobs: blobs_after(pre.blobs, all.take(i as int)),
                    ..pre
                }),
                grown_from(pre.blobs, self.state().blobs, all),
                forall|j: int| 0 <= j < i ==> artifact_storable(#[trigger] all[j]),
                !has_record(pre.records, meta.record_id@),
                span_fits(meta@),
            decreases artifacts.len() - i,
        {
            proof {
                assert(all.take(i + 1).drop_last() == all.take(i as int));
                assert(all.take(i + 1).last() == artifacts@[i as int]@);
                assert(all[i as int] == artifacts@[i as int]@);
            }
            let artifact = &artifacts[i];
            let ghost first = self.state().blobs;
            match self.ensure_side(&artifact.record.before_sha, &artifact.before_blob) {
                Ok(()) => {},
                Err(e) => {
                    proof {
                        assert(pre.blobs.submap_of(first));
                        if e is Compress {
                            assert(!artifact_packs(pre.blobs, all[i as int]));
                        } else {
                            assert(!artifact_storable(all[i as int]));
                        }
                    }
                    return Err(e);
                },
            }
            let ghost second = self.state().blobs;
            assert(grown_from(pre.blobs, second, all)) by {
                assert(first.submap_of(second));
                assert forall|sha: Seq<char>| #[trigger]
                    second.contains_key(sha) implies pre.blobs.contains_key(sha) || exists|k: int|
                    0 <= k < all.len() && side_of(#[trigger] all[k], sha, second[sha]) by {
                    if !first.contains_key(sha) {
                        assert(side_of(all[i as int], sha, second[sha]));
                    }
                }
            }
            match self.ensure_side(&artifact.record.after_sha, &artifact.after_blob) {
                Ok(()) => {},
                Err(e) => {
                    proof {
                        assert(pre.blobs.submap_of(second));
                        if e is Compress {
                            assert(!artifact_packs(pre.blobs, all[i as int]));
                        } else {
                            assert(!artifact_storable(all[i as int]));
                        }
                    }
                    return Err(e);
                },
            }
            assert(grown_from(pre.blobs, self.state().blobs, all)) by {
                let third = self.state().blobs;
                assert(second.submap_of(third));
                assert forall|sha: Seq<char>| #[trigger]
                    third.contains_key(sha) implies pre.blobs.contains_key(sha) || exists|k: int|
                    0 <= k < all.len() && side_of(#[trigger] all[k], sha, third[sha]) by {
                    if !second.contains_key(sha) {
                        assert(side_of(all[i as int], sha, third[sha]));
                    }
                }
            }
            i = i + 1;
        }
        assert(all.take(artifacts.len() as int) == all);
        apply_files_to(&mut self.snapshots, &meta.files, meta.record_id.as_str(), meta.ended_at);
        let ghost stored = stored_view(self.records@);
        self.records.push(record);
        proof {
            let now = stored_view(self.records@);
            assert(now =~= stored.push(record@));
            assert(now.drop_last() == stored);
            assert forall|a: int, b: int| 0 <= a < b < now.len() implies (
            #[trigger] now[a]).meta.record_id != (#[trigger] now[b]).meta.record_id by {
                if b == stored.len() {
                    assert(stored[a].meta.record_id != meta.record_id@);
                } else {
                    assert(stored[a].meta.record_id != stored[b].meta.record_id);
                }
            }
            assert forall|a: int| 0 <= a < now.len() implies {
                let r = #[trigger] now[a];
                &&& r.duration_ms == r.meta.ended_at - r.meta.started_at
                &&& r.diff_hash == content_hash(r.patch)
            } by {
                if a < stored.len() {
                    assert(now[a] == stored[a]);
                }
            }
        }
        Ok(())
    }

    /// The hash of the blob a path points at, or nothing where the path is
    /// not tracked or was deleted.
    pub fn fetch_snapshot(&self, path: &str) -> (r: Option<String>)
        requires
            self.wf(),
        ensures
            match r {
                Some(sha) => self.state().snapshots.contains_key(path@) && sha@
                    == self.state().snapshots[path@].sha,
                None => !self.state().snapshots.contains_key(path@),
            },
    {
        match self.snapshots.get(path) {
            Some(row) => Some(row.sha.clone()),
            None => None,
        }
    }

    /// The blob a path points at and the record that made it so.
    pub fn snapshot_info(&self, path: &str) -> (r: Option<SnapshotInfo>)
        requires
            self.wf(),
        ensures
            match r {
                Some(info) => {
                    &&& self.state().snapshots.contains_key(path@)
                    &&& info.sha@ == self.state().snapshots[path@].sha
                    &&& info.record_id@ == self.state().snapshots[path@].record_id
                },
                None => !self.state().snapshots.contains_key(path@),
            },
    {
        match self.snapshots.get(path) {
            Some(row) => Some(SnapshotInfo { record_id: row.record_id.clone(), sha: row.sha.clone() }),
            None => None,
        }
    }

    /// The identifier of the latest record: the one that ends last, and of
    /// those that end together the one committed last.
    pub fn latest_record_id(&self) -> (r: Option<String>)
        ensures
            opt_str_view(r) == latest_record_id_of(self.state().records),
            r is None <==> self.state().records.len() == 0,
    {
        if self.records.len() == 0 {
            return None;
        }
        let ghost all = stored_view(self.records@);
        let mut best: usize = 0;
        let mut i: usize = 1;
        assert(is_latest(all.take(1), 0));
        while i < self.records.len()
            invariant
                1 <= i <= self.records.len(),
                all == stored_view(self.records@),
                best < i,
                is_latest(all.take(i as int), best as int),
            decreases self.records.len() - i,
        {
            let ghost prefix = all.take(i as int);
            let ghost next = all.take(i + 1);
            proof {
                assert forall|j: int| 0 <= j < i implies next[j] == prefix[j] by {}
                assert(next[i as int] == self.records@[i as int]@);
            }
            if self.records[i].meta.ended_at >= self.records[best].meta.ended_at {
                proof {
                    assert forall|j: int| 0 <= j < next.len() implies (#[trigger] next[j]).meta.ended_at
                        <= next[i as int].meta.ended_at by {
                        if j < i {
                            assert(prefix[j].meta.ended_at <= prefix[best as int].meta.ended_at);
                        }
                    }
                }
                best = i;
            } else {
                proof {
                    assert forall|j: int| 0 <= j < next.len() implies (#[trigger] next[j]).meta.ended_at
                        <= next[best as int].meta.ended_at by {
                        if j < i {
                            assert(prefix[j].meta.ended_at <= prefix[best as int].meta.ended_at);
                        }
                    }
                    assert forall|j: int| best < j < next.len() implies (
                    #[trigger] next[j]).meta.ended_at < next[best as int].meta.ended_at by {
                        if j < i {
                            assert(prefix[j].meta.ended_at < prefix[best as int].meta.ended_at);
                        }
                    }
                }
            }
            i = i + 1;
        }
        proof {
            assert(all.take(self.records.len() as int) == all);
            let chosen = choose|k: int| is_latest(all, k);
            lemma_latest_unique(all, chosen, best as int);
        }
        Some(self.records[best].meta.record_id.clone())
    }

    /// The metadata of a record.
    pub fn read_record_meta(&self, record_id: &str) -> (r: Result<RecordMeta, StorageError>)
        ensures
            match r {
                Ok(meta) => exists|i: int|
                    0 <= i < self.state().records.len() && (#[trigger] self.state().records[i]).meta
                        == meta@ && meta.record_id@ == record_id@,
                Err(e) => e is RecordNotFound && !has_record(self.state().records, record_id@),
            },
    {
        match self.record_position(record_id) {
            Some(i) => {
                let meta = self.records[i].meta.clone();
                assert(self.state().records[i as int].meta == meta@);
                Ok(meta)
            },
            None => Err(StorageError::RecordNotFound),
        }
    }

    /// The compressed patch of a record.
    pub fn read_patch(&self, record_id: &str) -> (r: Result<Vec<u8>, StorageError>)
        ensures
            match r {
                Ok(patch) => exists|i: int|
                    0 <= i < self.state().records.len() && (#[trigger] self.state().records[i]).patch
                        == patch@ && self.state().records[i].meta.record_id == record_id@,
                Err(e) => e is RecordNotFound && !has_record(self.state().records, record_id@),
            },
    {
        match self.record_position(record_id) {
            Some(i) => {
                let patch = self.records[i].patch.clone();
                assert(self.state().records[i as int].patch == patch@);
                Ok(patch)
            },
            None => Err(StorageError::RecordNotFound),
        }
    }

    /// The timeline: a summary of each record that ends within `from` and
    /// `to` (both inclusive, each optional), newest first, and no more than
    /// `limit` of them where a limit is given.
    pub fn timeline(&self, limit: Option<usize>, from: Option<i64>, to: Option<i64>) -> (r: Vec<
        TimelineEntry,
    >)
        ensures
            timeline_view(r@) == limited(timeline_of(self.state().records, from, to), limit),
    {
        let ghost all = stored_view(self.records@);
        let mut out: Vec<TimelineEntry> = Vec::new();
        let mut i: usize = 0;
        assert(timeline_view(out@) =~= timeline_of(all.take(0), from, to));
        while i < self.records.len()
            invariant
                i <= self.records.len(),
                all == stored_view(self.records@),
                timeline_view(out@) == timeline_of(all.take(i as int), from, to),
            decreases self.records.len() - i,
        {
            proof {
                assert(all.take(i + 1).drop_last() == all.take(i as int));
                assert(all.take(i + 1).last() == self.records@[i as int]@);
            }
            let record = &self.records[i];
            if within(record.meta.ended_at, from, to) {
                let entry = timeline_entry(
                    record.meta.record_id.as_str(),
                    record.meta.ended_at,
                    &record.meta.stats,
                    record.duration_ms,
                );
                assert(entry@ == entry_of(self.records@[i as int]@));
                place(&mut out, entry);
            }
            i = i + 1;
        }
        assert(all.take(self.records.len() as int) == all);
        match limit {
            Some(n) => {
                if n < out.len() {
                    let ghost full = timeline_view(out@);
                    out.truncate(n);
                    assert(timeline_view(out@) =~= full.take(n as int));
                }
            },
            None => {},
        }
        out
    }

    /// The registry of known projects.
    pub fn list_projects(&self) -> (r: Vec<ProjectEntry>)
        ensures
            entries_view(r@) == self.state().registry,
    {
        let mut out: Vec<ProjectEntry> = Vec::new();
        let mut i: usize = 0;
        while i < self.registry.len()
            invariant
                i <= self.registry.len(),
                entries_view(out@) == entries_view(self.registry@).take(i as int),
            decreases self.registry.len() - i,
        {
            let ghost before = entries_view(out@);
            out.push(self.registry[i].clone());
            assert(entries_view(out@) =~= before.push(self.registry@[i as int]@));
            assert(entries_view(self.registry@).take(i + 1) =~= before.push(
                self.registry@[i as int]@,
            ));
            i = i + 1;
        }
        assert(entries_view(self.registry@).take(self.registry.len() as int) == entries_view(
            self.registry@,
        ));
        out
    }

    /// Enters this project into the registry as seen at `now` (seconds since
    /// the epoch), in place of any earlier entry of it.
    pub fn update_registry(&mut self, now: i64)
        requires
            old(self).wf(),
        ensures
            final(self).wf(),
            final(self).state() == (StoreState {
                registry: registry_touched(
                    old(self).state().registry,
                    ProjectEntryView {
                        project_id: old(self).state().project_id,
                        path: old(self).state().project_root,
                        last_seen: now,
                    },
                ),
                ..old(self).state()
            }),
    {
        let mut entries: Vec<ProjectEntry> = Vec::new();
        std::mem::swap(&mut entries, &mut self.registry);
        self.registry = touch_registry(
            entries,
            self.project_id.as_str(),
            self.project_root.as_str(),
            now,
        );
    }

    /// Refreshes this project's registry entry.
    pub fn register_touch(&mut self, now: i64)
        requires
            old(self).wf(),
        ensures
            final(self).wf(),
            final(self).state() == (StoreState {
                registry: registry_touched(
                    old(self).state().registry,
                    ProjectEntryView {
                        project_id: old(self).state().project_id,
                        path: old(self).state().project_root,
                        last_seen: now,
                    },
                ),
                ..old(self).state()
            }),
    {
        self.update_registry(now)
    }
}

/// Moves the snapshot pointers as the files of a commit say, in order.
fn apply_files_to(index: &mut StrMap<SnapshotRow>, files: &Vec<FileRecord>, record_id: &str, at: i64)
    requires
        old(index).wf(),
    ensures
        final(index).wf(),
        snapshot_index(final(index)@) == apply_files(
            snapshot_index(old(index)@),
            records_view(files@),
            record_id@,
            at,
        ),
{
    let ghost start = snapshot_index(index@);
    let ghost all = records_view(files@);
    let mut i: usize = 0;
    while i < files.len()
        invariant
            i <= files.len(),
            index.wf(),
            all == records_view(files@),
            snapshot_index(index@) == apply_files(start, all.take(i as int), record_id@, at),
        decreases files.len() - i,
    {
        proof {
            assert(all.take(i + 1).drop_last() == all.take(i as int));
            assert(all.take(i + 1).last() == files@[i as int]@);
        }
        let ghost rows = index@;
        match snapshot_change(&files[i]) {
            SnapshotChange::Remove { path } => {
                index.remove(path.as_str());
                assert(snapshot_index(index@) =~= snapshot_index(rows).remove(path@));
            },
            SnapshotChange::Point { path, sha } => {
                let row = SnapshotRow { sha, record_id: record_id.to_owned(), updated_at: at };
                index.insert(path, row);
                assert(snapshot_index(index@) =~= snapshot_index(rows).insert(path@, row@));
            },
            SnapshotChange::Keep => {},
        }
        i = i + 1;
    }
    assert(all.take(files.len() as int) == all);
}

} // verus!

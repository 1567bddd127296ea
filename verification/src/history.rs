//! What a history of commits says about one path.

use vstd::prelude::*;

use crate::models::FileRecordView;
use crate::pipeline::{records_of, sides_hashed, FileArtifactView};
use crate::storage::{
    apply_files, blobs_after, change_of, grown_from, latest_record_id_of,
    lemma_blobs_after_stores, replay, side_of, SnapshotChangeView, SnapshotView, StorageEngine,
    StoreState, StoredRecordView,
};
use crate::util::{content_hash, has_shard};

verus! {

/// The file records of a history, in the order in which they were committed.
pub open spec fn history_files(records: Seq<StoredRecordView>) -> Seq<FileRecordView>
    decreases records.len(),
{
    if records.len() == 0 {
        Seq::empty()
    } else {
        history_files(records.drop_last()) + records.last().meta.files
    }
}

/// The most recent file record for a path, if any mentions it.
pub open spec fn last_mention(files: Seq<FileRecordView>, path: Seq<char>) -> Option<
    FileRecordView,
>
    decreases files.len(),
{
    if files.len() == 0 {
        None
    } else if files.last().path == path {
        Some(files.last())
    } else {
        last_mention(files.drop_last(), path)
    }
}

/// Whether every file record is well formed.
pub open spec fn all_wf(files: Seq<FileRecordView>) -> bool {
    forall|i: int| 0 <= i < files.len() ==> (#[trigger] files[i]).wf()
}

/// The hash that a path points at after some file records, going by the
/// most recent one that mentions it: its after-hash, or nothing where it is
/// a deletion. Where none mentions the path, the pointer is as it was.
pub open spec fn pointer_after(
    before: Option<Seq<char>>,
    files: Seq<FileRecordView>,
    path: Seq<char>,
) -> Option<Seq<char>> {
    match last_mention(files, path) {
        Some(file) => if file.op is Deleted {
            None
        } else {
            file.after_sha
        },
        None => before,
    }
}

/// The hash a path points at in a snapshot index, if it points at any.
pub open spec fn pointer_in(index: Map<Seq<char>, SnapshotView>, path: Seq<char>) -> Option<
    Seq<char>,
> {
    if index.contains_key(path) {
        Some(index[path].sha)
    } else {
        None
    }
}

/// The most recent mention among two runs of file records is the one in the
/// later run, or else the one in the earlier.
pub proof fn lemma_last_mention_concat(
    earlier: Seq<FileRecordView>,
    later: Seq<FileRecordView>,
    path: Seq<char>,
)
    ensures
        last_mention(earlier + later, path) == match last_mention(later, path) {
            Some(file) => Some(file),
            None => last_mention(earlier, path),
        },
    decreases later.len(),
{
    if later.len() == 0 {
        assert(earlier + later == earlier);
    } else {
        let all = earlier + later;
        assert(all.last() == later.last());
        assert(all.drop_last() == earlier + later.drop_last());
        lemma_last_mention_concat(earlier, later.drop_last(), path);
    }
}

/// After the well-formed file records of one commit, a path points where
/// the most recent of them that mentions it says.
pub proof fn lemma_apply_files_pointer(
    index: Map<Seq<char>, SnapshotView>,
    files: Seq<FileRecordView>,
    record_id: Seq<char>,
    at: i64,
    path: Seq<char>,
)
    requires
        all_wf(files),
    ensures
        pointer_in(apply_files(index, files, record_id, at), path) == pointer_after(
            pointer_in(index, path),
            files,
            path,
        ),
    decreases files.len(),
{
    if files.len() > 0 {
        let front = files.drop_last();
        assert forall|i: int| 0 <= i < front.len() implies (#[trigger] front[i]).wf() by {
            assert(front[i] == files[i]);
        }
        lemma_apply_files_pointer(index, front, record_id, at, path);
        assert(files[files.len() - 1].wf());
    }
}

/// Snapshot consistency: after any history of well-formed commits, a path
/// points at the after-hash of the most recent file record that mentions
/// it, and at nothing where that record is a deletion or where no record
/// mentions the path.
pub proof fn lemma_snapshot_consistency(records: Seq<StoredRecordView>, path: Seq<char>)
    requires
        all_wf(history_files(records)),
    ensures
        pointer_in(replay(records), path) == pointer_after(None, history_files(records), path),
    decreases records.len(),
{
    if records.len() > 0 {
        let front = records.drop_last();
        let last = records.last().meta;
        let earlier = history_files(front);
        assert forall|i: int| 0 <= i < earlier.len() implies (#[trigger] earlier[i]).wf() by {
            assert(history_files(records)[i] == earlier[i]);
        }
        assert forall|i: int| 0 <= i < last.files.len() implies (#[trigger] last.files[i]).wf() by {
            assert(history_files(records)[earlier.len() + i] == last.files[i]);
        }
        lemma_snapshot_consistency(front, path);
        lemma_apply_files_pointer(replay(front), last.files, last.record_id, last.ended_at, path);
        lemma_last_mention_concat(earlier, last.files, path);
    }
}

/// What a store answers for a path is what its committed records say: the
/// after-hash of the most recent file record for the path, and nothing
/// where that is a deletion or no record mentions the path.
pub proof fn lemma_store_snapshot_consistency(engine: &StorageEngine, path: Seq<char>)
    requires
        engine.wf(),
        all_wf(history_files(engine.state().records)),
    ensures
        pointer_in(engine.state().snapshots, path) == pointer_after(
            None,
            history_files(engine.state().records),
            path,
        ),
{
    engine.lemma_wf();
    lemma_snapshot_consistency(engine.state().records, path);
}

/// Whether every record links to the record that was the latest when it
/// was committed, and the first to none.
pub open spec fn chained(records: Seq<StoredRecordView>) -> bool {
    forall|i: int|
        0 <= i < records.len() ==> (#[trigger] records[i]).meta.prev_record_id
            == latest_record_id_of(records.take(i))
}

/// Whether every blob is stored under the hash of its content.
pub open spec fn content_addressed(blobs: Map<Seq<char>, Seq<u8>>) -> bool {
    forall|sha: Seq<char>| #[trigger] blobs.contains_key(sha) ==> content_hash(blobs[sha]) == sha
}

/// Whether every snapshot pointer names a blob that is stored.
pub open spec fn pointers_stored(
    snapshots: Map<Seq<char>, SnapshotView>,
    blobs: Map<Seq<char>, Seq<u8>>,
) -> bool {
    forall|path: Seq<char>| #[trigger]
        snapshots.contains_key(path) ==> has_shard(snapshots[path].sha) && blobs.contains_key(
            snapshots[path].sha,
        )
}

/// What holds of a store whose every record came from a batch: its file
/// records are well formed, its records form a chain, its blobs are stored
/// under the hashes of their content, and its snapshot pointers name stored
/// blobs.
pub open spec fn sound(state: StoreState) -> bool {
    &&& all_wf(history_files(state.records))
    &&& chained(state.records)
    &&& content_addressed(state.blobs)
    &&& pointers_stored(state.snapshots, state.blobs)
}

/// A store without records, blobs and pointers is sound.
pub proof fn lemma_empty_store_is_sound(state: StoreState)
    requires
        state.records.len() == 0,
        state.blobs == Map::<Seq<char>, Seq<u8>>::empty(),
        state.snapshots == Map::<Seq<char>, SnapshotView>::empty(),
    ensures
        sound(state),
{
}

/// Chain integrity: a record that links to the latest record extends the
/// chain.
pub proof fn lemma_chain_extends(records: Seq<StoredRecordView>, record: StoredRecordView)
    requires
        chained(records),
        record.meta.prev_record_id == latest_record_id_of(records),
    ensures
        chained(records.push(record)),
{
    let after = records.push(record);
    assert forall|i: int| 0 <= i < after.len() implies (#[trigger] after[i]).meta.prev_record_id
        == latest_record_id_of(after.take(i)) by {
        if i < records.len() {
            assert(after.take(i) =~= records.take(i));
            assert(after[i] == records[i]);
        } else {
            assert(after.take(i) =~= records);
        }
    }
}

/// A record of well-formed file records keeps the history well formed.
pub proof fn lemma_history_extends(records: Seq<StoredRecordView>, record: StoredRecordView)
    requires
        all_wf(history_files(records)),
        all_wf(record.meta.files),
    ensures
        all_wf(history_files(records.push(record))),
{
    let after = records.push(record);
    assert(after.drop_last() =~= records);
    let files = history_files(after);
    assert forall|i: int| 0 <= i < files.len() implies (#[trigger] files[i]).wf() by {
        if i < history_files(records).len() {
            assert(files[i] == history_files(records)[i]);
        } else {
            assert(files[i] == record.meta.files[i - history_files(records).len()]);
        }
    }
}

/// Blobs that come from hashed sides keep the store content-addressed.
pub proof fn lemma_blobs_stay_addressed(
    before: Map<Seq<char>, Seq<u8>>,
    after: Map<Seq<char>, Seq<u8>>,
    artifacts: Seq<FileArtifactView>,
)
    requires
        content_addressed(before),
        grown_from(before, after, artifacts),
        forall|i: int| 0 <= i < artifacts.len() ==> sides_hashed(#[trigger] artifacts[i]),
    ensures
        content_addressed(after),
{
    assert forall|sha: Seq<char>| #[trigger] after.contains_key(sha) implies content_hash(
        after[sha],
    ) == sha by {
        if before.contains_key(sha) {
            assert(after[sha] == before[sha]);
        } else {
            let i = choose|i: int|
                0 <= i < artifacts.len() && side_of(#[trigger] artifacts[i], sha, after[sha]);
            assert(sides_hashed(artifacts[i]));
        }
    }
}

/// Pointers stay good where every hash that a file record points a path at
/// is stored.
pub proof fn lemma_pointers_stay_stored(
    index: Map<Seq<char>, SnapshotView>,
    files: Seq<FileRecordView>,
    record_id: Seq<char>,
    at: i64,
    blobs: Map<Seq<char>, Seq<u8>>,
)
    requires
        pointers_stored(index, blobs),
        forall|i: int|
            0 <= i < files.len() ==> (change_of(#[trigger] files[i]) matches SnapshotChangeView::Point {
                sha,
                ..
            } ==> has_shard(sha) && blobs.contains_key(sha)),
    ensures
        pointers_stored(apply_files(index, files, record_id, at), blobs),
    decreases files.len(),
{
    if files.len() > 0 {
        let front = files.drop_last();
        assert forall|i: int| 0 <= i < front.len() implies (change_of(
            #[trigger] front[i],
        ) matches SnapshotChangeView::Point { sha, .. } ==> has_shard(sha) && blobs.contains_key(
            sha,
        )) by {
            assert(front[i] == files[i]);
        }
        lemma_pointers_stay_stored(index, front, record_id, at, blobs);
        assert(files[files.len() - 1] == files.last());
    }
}

/// A commit of hashed artifacts that links to the latest record keeps a
/// store sound.
pub proof fn lemma_commit_keeps_sound(
    before: StoreState,
    after: StoreState,
    record: StoredRecordView,
    artifacts: Seq<FileArtifactView>,
)
    requires
        sound(before),
        after.records == before.records.push(record),
        record.meta.prev_record_id == latest_record_id_of(before.records),
        record.meta.files == records_of(artifacts),
        all_wf(record.meta.files),
        forall|i: int| 0 <= i < artifacts.len() ==> sides_hashed(#[trigger] artifacts[i]),
        after.blobs == blobs_after(before.blobs, artifacts),
        grown_from(before.blobs, after.blobs, artifacts),
        after.snapshots == apply_files(
            before.snapshots,
            record.meta.files,
            record.meta.record_id,
            record.meta.ended_at,
        ),
    ensures
        sound(after),
{
    lemma_chain_extends(before.records, record);
    lemma_history_extends(before.records, record);
    lemma_blobs_stay_addressed(before.blobs, after.blobs, artifacts);
    let files = record.meta.files;
    assert forall|i: int| 0 <= i < files.len() implies (change_of(
        #[trigger] files[i],
    ) matches SnapshotChangeView::Point { sha, .. } ==> has_shard(sha) && after.blobs.contains_key(
        sha,
    )) by {
        assert(files[i] == artifacts[i].record);
        assert(sides_hashed(artifacts[i]));
        lemma_blobs_after_stores(before.blobs, artifacts, i);
    }
    assert(pointers_stored(before.snapshots, after.blobs));
    lemma_pointers_stay_stored(
        before.snapshots,
        files,
        record.meta.record_id,
        record.meta.ended_at,
        after.blobs,
    );
}

/// Blobs stored on the way of a batch that was abandoned leave a store
/// sound.
pub proof fn lemma_blobs_keep_sound(
    before: StoreState,
    after: StoreState,
    artifacts: Seq<FileArtifactView>,
)
    requires
        sound(before),
        after.records == before.records,
        after.snapshots == before.snapshots,
        grown_from(before.blobs, after.blobs, artifacts),
        forall|i: int| 0 <= i < artifacts.len() ==> sides_hashed(#[trigger] artifacts[i]),
    ensures
        sound(after),
{
    lemma_blobs_stay_addressed(before.blobs, after.blobs, artifacts);
}

/// In a sound store the hash of what was last recorded of a path is the
/// hash that its snapshot pointer names: a change is diffed against, and
/// its record names as its before-hash, the after-hash of the latest
/// record of that path.
pub proof fn lemma_before_hash_is_pointer(state: StoreState, path: Seq<char>)
    requires
        sound(state),
        state.snapshots.contains_key(path),
    ensures
        state.blobs.contains_key(state.snapshots[path].sha),
        content_hash(state.blobs[state.snapshots[path].sha]) == state.snapshots[path].sha,
{
}

} // verus!

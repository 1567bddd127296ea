//! What a commit writes: the plan that a persistent store carries out.
//!
//! A commit stores the blobs of its artifacts, then its row, then moves
//! the snapshot pointers of its files. The plan lists all three in the
//! order in which they are written, so that a store only has to write.

use vstd::prelude::*;

use crate::models::{records_view, FileRecord, FileRecordView, RecordMeta};
use crate::pipeline::{FileArtifact, FileArtifactView};
use crate::storage::{
    apply_files, artifacts_view, blob_ensured, blobs_after, change_of, index_changed,
    side_to_store, snapshot_change, span_fits, stored_of, SnapshotChange, SnapshotChangeView,
    SnapshotView, StoredRecord,
};

verus! {

/// What a commit writes, in the order in which it is written.
#[derive(Debug)]
pub struct CommitPlan<'a> {
    /// The blobs to ensure: each with the hash it is stored under.
    pub blobs: Vec<(&'a str, &'a Vec<u8>)>,
    /// The row of the record.
    pub record: StoredRecord,
    /// The changes to the snapshot index.
    pub changes: Vec<SnapshotChange>,
}

/// The contents of a list of blobs to ensure.
pub open spec fn sides_view(sides: Seq<(&str, &Vec<u8>)>) -> Seq<(Seq<char>, Seq<u8>)> {
    sides.map_values(|side: (&str, &Vec<u8>)| (side.0@, side.1@))
}

/// The contents of a list of snapshot changes.
pub open spec fn changes_view(changes: Seq<SnapshotChange>) -> Seq<SnapshotChangeView> {
    changes.map_values(|c: SnapshotChange| c@)
}

/// One side of an artifact as a blob to ensure: itself where it has a hash
/// and a blob, nothing otherwise.
pub open spec fn side_to_ensure(sha: Option<Seq<char>>, blob: Option<Seq<u8>>) -> Seq<
    (Seq<char>, Seq<u8>),
> {
    match (sha, blob) {
        (Some(s), Some(b)) => seq![(s, b)],
        _ => Seq::empty(),
    }
}

/// The blobs that the artifacts of a commit ask for: of each artifact in
/// order, the before-side first.
pub open spec fn sides_to_ensure(artifacts: Seq<FileArtifactView>) -> Seq<(Seq<char>, Seq<u8>)>
    decreases artifacts.len(),
{
    if artifacts.len() == 0 {
        Seq::empty()
    } else {
        let a = artifacts.last();
        sides_to_ensure(artifacts.drop_last()) + side_to_ensure(a.record.before_sha, a.before_blob)
            + side_to_ensure(a.record.after_sha, a.after_blob)
    }
}

/// The changes that the files of a commit make to the snapshot index, in
/// order.
pub open spec fn changes_of(files: Seq<FileRecordView>) -> Seq<SnapshotChangeView> {
    files.map_values(|f: FileRecordView| change_of(f))
}

/// The blob store after some blobs were ensured in order.
pub open spec fn all_ensured(
    blobs: Map<Seq<char>, Seq<u8>>,
    sides: Seq<(Seq<char>, Seq<u8>)>,
) -> Map<Seq<char>, Seq<u8>>
    decreases sides.len(),
{
    if sides.len() == 0 {
        blobs
    } else {
        blob_ensured(all_ensured(blobs, sides.drop_last()), sides.last().0, sides.last().1)
    }
}

/// The snapshot index after some changes were made in order.
pub open spec fn all_changed(
    index: Map<Seq<char>, SnapshotView>,
    changes: Seq<SnapshotChangeView>,
    record_id: Seq<char>,
    at: i64,
) -> Map<Seq<char>, SnapshotView>
    decreases changes.len(),
{
    if changes.len() == 0 {
        index
    } else {
        index_changed(
            all_changed(index, changes.drop_last(), record_id, at),
            changes.last(),
            record_id,
            at,
        )
    }
}

/// Ensuring two runs of blobs one after the other is ensuring them all.
pub proof fn lemma_all_ensured_concat(
    blobs: Map<Seq<char>, Seq<u8>>,
    first: Seq<(Seq<char>, Seq<u8>)>,
    second: Seq<(Seq<char>, Seq<u8>)>,
)
    ensures
        all_ensured(blobs, first + second) == all_ensured(all_ensured(blobs, first), second),
    decreases second.len(),
{
    if second.len() == 0 {
        assert(first + second =~= first);
    } else {
        assert((first + second).drop_last() =~= first + second.drop_last());
        assert((first + second).last() == second.last());
        lemma_all_ensured_concat(blobs, first, second.drop_last());
    }
}

/// Carrying out the blobs of a plan leaves the blob store that the commit
/// of its artifacts leaves.
pub proof fn lemma_plan_blobs(blobs: Map<Seq<char>, Seq<u8>>, artifacts: Seq<FileArtifactView>)
    ensures
        all_ensured(blobs, sides_to_ensure(artifacts)) == blobs_after(blobs, artifacts),
    decreases artifacts.len(),
{
    if artifacts.len() > 0 {
        let a = artifacts.last();
        let front = sides_to_ensure(artifacts.drop_last());
        let before = side_to_ensure(a.record.before_sha, a.before_blob);
        let after = side_to_ensure(a.record.after_sha, a.after_blob);
        lemma_plan_blobs(blobs, artifacts.drop_last());
        lemma_all_ensured_concat(blobs, front + before, after);
        lemma_all_ensured_concat(blobs, front, before);
        reveal_with_fuel(all_ensured, 2);
    }
}

/// Carrying out the changes of a plan leaves the snapshot index that the
/// commit of its files leaves.
pub proof fn lemma_plan_changes(
    index: Map<Seq<char>, SnapshotView>,
    files: Seq<FileRecordView>,
    record_id: Seq<char>,
    at: i64,
)
    ensures
        all_changed(index, changes_of(files), record_id, at) == apply_files(
            index,
            files,
            record_id,
            at,
        ),
    decreases files.len(),
{
    if files.len() > 0 {
        assert(changes_of(files).drop_last() =~= changes_of(files.drop_last()));
        lemma_plan_changes(index, files.drop_last(), record_id, at);
    }
}

/// The changes that the files of a record make to the snapshot index.
pub fn snapshot_changes(files: &[FileRecord]) -> (r: Vec<SnapshotChange>)
    ensures
        changes_view(r@) == changes_of(records_view(files@)),
{
    let mut out: Vec<SnapshotChange> = Vec::new();
    let mut i: usize = 0;
    while i < files.len()
        invariant
            i <= files.len(),
            changes_view(out@) == changes_of(records_view(files@)).take(i as int),
        decreases files.len() - i,
    {
        let ghost before = changes_view(out@);
        let change = snapshot_change(&files[i]);
        out.push(change);
        assert(changes_view(out@) =~= before.push(change@));
        assert(changes_of(records_view(files@)).take(i + 1) =~= before.push(change@));
        i = i + 1;
    }
    assert(changes_of(records_view(files@)).take(files.len() as int) == changes_of(
        records_view(files@),
    ));
    out
}

/// The blobs that the artifacts of a commit ask for.
pub fn blobs_to_ensure<'a>(artifacts: &'a [FileArtifact]) -> (r: Vec<(&'a str, &'a Vec<u8>)>)
    ensures
        sides_view(r@) == sides_to_ensure(artifacts_view(artifacts@)),
{
    let ghost all = artifacts_view(artifacts@);
    let mut out: Vec<(&'a str, &'a Vec<u8>)> = Vec::new();
    let mut i: usize = 0;
    assert(sides_view(out@) =~= sides_to_ensure(all.take(0)));
    while i < artifacts.len()
        invariant
            i <= artifacts.len(),
            all == artifacts_view(artifacts@),
            sides_view(out@) == sides_to_ensure(all.take(i as int)),
        decreases artifacts.len() - i,
    {
        proof {
            assert(all.take(i + 1).drop_last() == all.take(i as int));
            assert(all.take(i + 1).last() == artifacts@[i as int]@);
        }
        let ghost so_far = sides_view(out@);
        let artifact = &artifacts[i];
        match side_to_store(&artifact.record.before_sha, &artifact.before_blob) {
            Some(side) => {
                out.push(side);
                assert(sides_view(out@) =~= so_far + seq![(side.0@, side.1@)]);
            },
            None => {
                assert(sides_view(out@) =~= so_far + Seq::empty());
            },
        }
        let ghost with_before = sides_view(out@);
        match side_to_store(&artifact.record.after_sha, &artifact.after_blob) {
            Some(side) => {
                out.push(side);
                assert(sides_view(out@) =~= with_before + seq![(side.0@, side.1@)]);
            },
            None => {
                assert(sides_view(out@) =~= with_before + Seq::empty());
            },
        }
        i = i + 1;
    }
    assert(all.take(artifacts.len() as int) == all);
    out
}

/// Plans the commit of a record: the blobs to ensure, the row to insert,
/// and the changes to the snapshot index. A record whose time span does
/// not fit has no plan.
pub fn plan_commit<'a>(meta: &RecordMeta, patch_bytes: &[u8], artifacts: &'a [FileArtifact]) -> (r:
    Option<CommitPlan<'a>>)
    ensures
        match r {
            Some(plan) => {
                &&& span_fits(meta@)
                &&& sides_view(plan.blobs@) == sides_to_ensure(artifacts_view(artifacts@))
                &&& plan.record@ == stored_of(meta@, patch_bytes@)
                &&& changes_view(plan.changes@) == changes_of(meta@.files)
            },
            None => !span_fits(meta@),
        },
{
    match StoredRecord::new(meta, patch_bytes) {
        Some(record) => Some(
            CommitPlan {
                blobs: blobs_to_ensure(artifacts),
                record,
                changes: snapshot_changes(meta.files.as_slice()),
            },
        ),
        None => None,
    }
}

} // verus!

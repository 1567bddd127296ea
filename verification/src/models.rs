//! The data model: what one committed record says about the files it touched.

use vstd::prelude::*;

verus! {

/// The kind of change a file underwent within one record.
#[derive(Clone, Copy, Debug, PartialEq, Eq, Structural)]
pub enum FileOp {
    Added,
    Modified,
    Deleted,
}

/// Line statistics of one file's diff.
#[derive(Clone, Copy, Debug, PartialEq, Eq, Structural)]
pub struct FileStats {
    pub added: usize,
    pub removed: usize,
    pub chunks: usize,
}

impl Default for FileStats {
    fn default() -> (s: FileStats)
        ensures
            s == (FileStats { added: 0, removed: 0, chunks: 0 }),
    {
        FileStats { added: 0, removed: 0, chunks: 0 }
    }
}

/// The view of an optional string: the characters it holds, if any.
pub open spec fn opt_str_view(o: Option<String>) -> Option<Seq<char>> {
    match o {
        Some(s) => Some(s@),
        None => None,
    }
}

/// Copies an optional string.
pub fn clone_opt_string(o: &Option<String>) -> (r: Option<String>)
    ensures
        opt_str_view(r) == opt_str_view(*o),
{
    match o {
        Some(s) => Some(s.clone()),
        None => None,
    }
}

/// The mathematical content of a [`FileRecord`].
pub struct FileRecordView {
    pub path: Seq<char>,
    pub op: FileOp,
    pub before_sha: Option<Seq<char>>,
    pub after_sha: Option<Seq<char>>,
    pub stats: FileStats,
}

/// One file's change within a record.
#[derive(Debug, PartialEq, Eq)]
pub struct FileRecord {
    pub path: String,
    pub op: FileOp,
    pub before_sha: Option<String>,
    pub after_sha: Option<String>,
    pub stats: FileStats,
}

impl View for FileRecord {
    type V = FileRecordView;

    open spec fn view(&self) -> FileRecordView {
        FileRecordView {
            path: self.path@,
            op: self.op,
            before_sha: opt_str_view(self.before_sha),
            after_sha: opt_str_view(self.after_sha),
            stats: self.stats,
        }
    }
}

impl FileRecordView {
    /// An added file has no before-hash, a deleted file no after-hash, and a
    /// modified file has both, and they differ.
    pub open spec fn wf(self) -> bool {
        match self.op {
            FileOp::Added => self.before_sha is None && self.after_sha is Some,
            FileOp::Deleted => self.before_sha is Some && self.after_sha is None,
            FileOp::Modified => self.before_sha is Some && self.after_sha is Some
                && self.before_sha != self.after_sha,
        }
    }
}

impl Clone for FileRecord {
    fn clone(&self) -> (r: FileRecord)
        ensures
            r@ == self@,
    {
        FileRecord {
            path: self.path.clone(),
            op: self.op,
            before_sha: clone_opt_string(&self.before_sha),
            after_sha: clone_opt_string(&self.after_sha),
            stats: self.stats,
        }
    }
}

/// Totals over the files of one record.
#[derive(Clone, Copy, Debug, PartialEq, Eq, Structural)]
pub struct RecordStats {
    pub files: usize,
    pub lines_added: usize,
    pub lines_removed: usize,
}

impl Default for RecordStats {
    fn default() -> (s: RecordStats)
        ensures
            s == (RecordStats { files: 0, lines_added: 0, lines_removed: 0 }),
    {
        RecordStats { files: 0, lines_added: 0, lines_removed: 0 }
    }
}

/// The contents of a list of file records.
pub open spec fn records_view(files: Seq<FileRecord>) -> Seq<FileRecordView> {
    files.map_values(|f: FileRecord| f@)
}

/// Copies a list of file records.
pub fn clone_records(files: &Vec<FileRecord>) -> (r: Vec<FileRecord>)
    ensures
        records_view(r@) == records_view(files@),
{
    let mut out: Vec<FileRecord> = Vec::new();
    let mut i: usize = 0;
    while i < files.len()
        invariant
            i <= files.len(),
            records_view(out@) == records_view(files@).take(i as int),
        decreases files.len() - i,
    {
        let ghost before = records_view(out@);
        out.push(files[i].clone());
        assert(records_view(out@) =~= before.push(files@[i as int]@));
        assert(records_view(files@).take(i + 1) =~= before.push(files@[i as int]@));
        i = i + 1;
    }
    assert(records_view(files@).take(files.len() as int) == records_view(files@));
    out
}

/// The mathematical content of a [`RecordMeta`].
pub struct RecordMetaView {
    pub record_id: Seq<char>,
    pub project_id: Seq<char>,
    pub started_at: i64,
    pub ended_at: i64,
    pub files: Seq<FileRecordView>,
    pub stats: RecordStats,
    pub prev_record_id: Option<Seq<char>>,
    pub tool_version: Seq<char>,
}

/// A committed change-set. Times are milliseconds since the epoch, UTC.
#[derive(Debug)]
pub struct RecordMeta {
    pub record_id: String,
    pub project_id: String,
    pub started_at: i64,
    pub ended_at: i64,
    pub files: Vec<FileRecord>,
    pub stats: RecordStats,
    pub prev_record_id: Option<String>,
    pub tool_version: String,
}

impl View for RecordMeta {
    type V = RecordMetaView;

    open spec fn view(&self) -> RecordMetaView {
        RecordMetaView {
            record_id: self.record_id@,
            project_id: self.project_id@,
            started_at: self.started_at,
            ended_at: self.ended_at,
            files: records_view(self.files@),
            stats: self.stats,
            prev_record_id: opt_str_view(self.prev_record_id),
            tool_version: self.tool_version@,
        }
    }
}

impl Clone for RecordMeta {
    fn clone(&self) -> (r: RecordMeta)
        ensures
            r@ == self@,
    {
        RecordMeta {
            record_id: self.record_id.clone(),
            project_id: self.project_id.clone(),
            started_at: self.started_at,
            ended_at: self.ended_at,
            files: clone_records(&self.files),
            stats: self.stats,
            prev_record_id: clone_opt_string(&self.prev_record_id),
            tool_version: self.tool_version.clone(),
        }
    }
}

/// The mathematical content of a [`TimelineEntry`].
pub struct TimelineEntryView {
    pub record_id: Seq<char>,
    pub timestamp: i64,
    pub files: usize,
    pub lines_added: usize,
    pub lines_removed: usize,
    pub duration_ms: i64,
    pub notes: Option<Seq<char>>,
}

/// The summary of one record in a timeline. The timestamp is the record's
/// end, in milliseconds since the epoch.
#[derive(Debug)]
pub struct TimelineEntry {
    pub record_id: String,
    pub timestamp: i64,
    pub files: usize,
    pub lines_added: usize,
    pub lines_removed: usize,
    pub duration_ms: i64,
    pub notes: Option<String>,
}

impl View for TimelineEntry {
    type V = TimelineEntryView;

    open spec fn view(&self) -> TimelineEntryView {
        TimelineEntryView {
            record_id: self.record_id@,
            timestamp: self.timestamp,
            files: self.files,
            lines_added: self.lines_added,
            lines_removed: self.lines_removed,
            duration_ms: self.duration_ms,
            notes: opt_str_view(self.notes),
        }
    }
}

impl Clone for TimelineEntry {
    fn clone(&self) -> (r: TimelineEntry)
        ensures
            r@ == self@,
    {
        TimelineEntry {
            record_id: self.record_id.clone(),
            timestamp: self.timestamp,
            files: self.files,
            lines_added: self.lines_added,
            lines_removed: self.lines_removed,
            duration_ms: self.duration_ms,
            notes: clone_opt_string(&self.notes),
        }
    }
}

/// The current blob of a path and the record that set it.
#[derive(Debug)]
pub struct SnapshotInfo {
    pub record_id: String,
    pub sha: String,
}

impl Clone for SnapshotInfo {
    fn clone(&self) -> (r: SnapshotInfo)
        ensures
            r.record_id@ == self.record_id@,
            r.sha@ == self.sha@,
    {
        SnapshotInfo { record_id: self.record_id.clone(), sha: self.sha.clone() }
    }
}

} // verus!

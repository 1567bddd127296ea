//! The statements of the metadata database: a table of records and a table
//! of each path's current blob.

use vstd::prelude::*;
use vstd::string::StringExecFns;

verus! {

/// Creates the two tables unless they exist.
pub const SCHEMA: &'static str =
    "CREATE TABLE IF NOT EXISTS records (record_id TEXT PRIMARY KEY, project_id TEXT NOT NULL, ts_start INTEGER NOT NULL, ts_end INTEGER NOT NULL, files_json TEXT NOT NULL, stats_json TEXT NOT NULL, prev_record_id TEXT, diff_hash TEXT NOT NULL, duration_ms INTEGER NOT NULL); CREATE TABLE IF NOT EXISTS latest_snapshots (path TEXT PRIMARY KEY, sha TEXT NOT NULL, record_id TEXT NOT NULL, updated_at INTEGER NOT NULL);";

/// Inserts the row of a record.
pub const INSERT_RECORD: &'static str =
    "INSERT INTO records (record_id, project_id, ts_start, ts_end, files_json, stats_json, prev_record_id, diff_hash, duration_ms) VALUES (?1, ?2, ?3, ?4, ?5, ?6, ?7, ?8, ?9)";

/// Points a path at a blob, in place of where it pointed before.
pub const UPSERT_SNAPSHOT: &'static str =
    "INSERT INTO latest_snapshots (path, sha, record_id, updated_at) VALUES (?1, ?2, ?3, ?4) ON CONFLICT(path) DO UPDATE SET sha=excluded.sha, record_id=excluded.record_id, updated_at=excluded.updated_at";

/// Takes a path out of the snapshot index.
pub const DELETE_SNAPSHOT: &'static str = "DELETE FROM latest_snapshots WHERE path = ?1";

/// Selects the hash a path points at.
pub const SELECT_SNAPSHOT: &'static str = "SELECT sha FROM latest_snapshots WHERE path = ?1";

/// Selects a record by its identifier, to see whether it is committed.
pub const SELECT_RECORD: &'static str = "SELECT record_id FROM records WHERE record_id = ?1";

/// Selects the identifier of the record that ends last, and of those that
/// end together the one that was inserted last.
pub const SELECT_LATEST: &'static str =
    "SELECT record_id FROM records ORDER BY ts_end DESC, rowid DESC LIMIT 1";

/// A timeline query: its text, the timestamps to bind to its bounds in
/// order, and the number of rows to bind to its limit where it has one.
#[derive(Debug)]
pub struct TimelineQuery {
    pub sql: String,
    pub bounds: Vec<i64>,
    pub limit: Option<i64>,
}

/// The condition of a timeline query: the bounds that are given, joined by
/// `AND`.
pub open spec fn where_clause(from: bool, to: bool) -> Seq<char> {
    if from && to {
        " WHERE ts_end >= ? AND ts_end <= ?"@
    } else if from {
        " WHERE ts_end >= ?"@
    } else if to {
        " WHERE ts_end <= ?"@
    } else {
        Seq::empty()
    }
}

/// The text of a timeline query. Records that end together come in the
/// order of their insertion, the last first.
pub open spec fn query_text(from: bool, to: bool, limit: bool) -> Seq<char> {
    "SELECT record_id, ts_end, stats_json, duration_ms FROM records"@ + where_clause(from, to)
        + " ORDER BY ts_end DESC, rowid DESC"@ + if limit {
        " LIMIT ?"@
    } else {
        Seq::empty()
    }
}

/// The timestamps that a timeline query binds: the bounds that are given,
/// the lower one first.
pub open spec fn query_bounds(from: Option<i64>, to: Option<i64>) -> Seq<i64> {
    match (from, to) {
        (Some(f), Some(t)) => seq![f, t],
        (Some(f), None) => seq![f],
        (None, Some(t)) => seq![t],
        (None, None) => Seq::empty(),
    }
}

/// The number of rows a limit stands for in the database, whose integers
/// are 64 bits wide: a larger limit is as good as the largest.
pub open spec fn row_limit(limit: usize) -> i64 {
    if limit <= i64::MAX {
        limit as i64
    } else {
        i64::MAX
    }
}

/// The query for the timeline: the records that end within `from` and
/// `to`, both inclusive and each optional, newest first, and no more than
/// `limit` of them where a limit is given.
pub fn timeline_query(limit: Option<usize>, from: Option<i64>, to: Option<i64>) -> (q:
    TimelineQuery)
    ensures
        q.sql@ == query_text(from is Some, to is Some, limit is Some),
        q.bounds@ == query_bounds(from, to),
        q.limit == match limit {
            Some(n) => Some(row_limit(n)),
            None => None,
        },
{
    let mut sql = "SELECT record_id, ts_end, stats_json, duration_ms FROM records".to_owned();
    let mut bounds: Vec<i64> = Vec::new();
    match (from, to) {
        (Some(f), Some(t)) => {
            sql.append(" WHERE ts_end >= ? AND ts_end <= ?");
            bounds.push(f);
            bounds.push(t);
        },
        (Some(f), None) => {
            sql.append(" WHERE ts_end >= ?");
            bounds.push(f);
        },
        (None, Some(t)) => {
            sql.append(" WHERE ts_end <= ?");
            bounds.push(t);
        },
        (None, None) => {},
    }
    sql.append(" ORDER BY ts_end DESC, rowid DESC");
    let limit = match limit {
        Some(n) => {
            sql.append(" LIMIT ?");
            let wide = n as u64;
            if wide <= 0x7fff_ffff_ffff_ffffu64 {
                Some(wide as i64)
            } else {
                Some(i64::MAX)
            }
        },
        None => None,
    };
    proof {
        assert(bounds@ =~= query_bounds(from, to));
        assert(sql@ =~= query_text(from is Some, to is Some, limit is Some));
    }
    TimelineQuery { sql, bounds, limit }
}

} // verus!

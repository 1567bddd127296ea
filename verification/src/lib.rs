//! A local change tracker. It turns bursts of file changes into records:
//! per-file diffs with their blobs and statistics, linked into a history
//! and held in a content-addressed store.
//!
//! - [`util`]: content hashes and the identifiers derived from them.
//! - [`textdiff`], [`pipeline`]: from a file's bytes before and after to
//!   its record, patch and blobs.
//! - [`storage`], [`registry`], [`timeline`]: the store and its queries.
//! - [`commit`], [`sql`]: what a store on disk writes and asks.
//! - [`history`]: what holds of every store that batches have built.
//! - [`watcher`]: the micro-batcher, the process lock, and the way from a
//!   batch of events to a committed record.
//! - [`ignore`]: which paths are left out.
//! - [`cli`]: what the commands decide.
//! - [`strmap`], [`text`]: a small map on strings, and what the library
//!   asks of string slices.

pub mod cli;
pub mod commit;
pub mod history;
pub mod ignore;
pub mod models;
pub mod pipeline;
pub mod registry;
pub mod sql;
pub mod storage;
pub mod strmap;
pub mod text;
pub mod textdiff;
pub mod timeline;
pub mod util;
pub mod watcher;

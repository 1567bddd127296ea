//! The watcher: from batches of file-system events to committed records.

pub mod batch;
pub mod lock;
pub mod microbatch;
pub mod paths;
pub mod session;

pub use batch::{
    assemble_record, build_artifacts, generate_record_id, plan_batch, process_batch,
};
pub use lock::{is_process_alive, send_terminate, LockInfo, WatchLock};
pub use microbatch::{next_batch, Batch};
pub use paths::{collect_paths, EventPath, FsEvent};
pub use session::{watch, WatchOptions};

//! The process lock: one watcher per project.
//!
//! The lock is a file that names its owner. Who wants the lock looks at the
//! file, asks whether its owner still runs, and then either is refused or
//! replaces it. What is decided here is carried out by whoever holds the
//! files.

use vstd::prelude::*;
use crate::storage::{join, join_path};
use crate::util::{tool_version, TOOL_VERSION};

verus! {

/// The name of the lock file within a project's metadata directory.
pub const LOCK_FILENAME: &'static str = "watch.lock";

/// The mathematical content of a [`LockInfo`].
pub struct LockInfoView {
    pub project_id: Seq<char>,
    pub pid: i32,
    pub started_at: i64,
    pub tool_version: Seq<char>,
}

/// The owner of a lock: the watcher's process, when it started (seconds
/// since the epoch), and the version that wrote the lock.
#[derive(Debug)]
pub struct LockInfo {
    pub project_id: String,
    pub pid: i32,
    pub started_at: i64,
    pub tool_version: String,
}

impl View for LockInfo {
    type V = LockInfoView;

    open spec fn view(&self) -> LockInfoView {
        LockInfoView {
            project_id: self.project_id@,
            pid: self.pid,
            started_at: self.started_at,
            tool_version: self.tool_version@,
        }
    }
}

impl Clone for LockInfo {
    fn clone(&self) -> (r: LockInfo)
        ensures
            r@ == self@,
    {
        LockInfo {
            project_id: self.project_id.clone(),
            pid: self.pid,
            started_at: self.started_at,
            tool_version: self.tool_version.clone(),
        }
    }
}

/// The mathematical content of a [`LockState`].
pub enum LockStateView {
    Unlocked,
    Locked(LockInfoView),
    Unreadable(Seq<char>),
}

/// What stands at the lock's path.
#[derive(Debug)]
pub enum LockState {
    /// No lock file: nobody holds the lock.
    Unlocked,
    /// A lock file with this owner.
    Locked(LockInfo),
    /// A file that cannot be read as a lock; the reason is kept.
    Unreadable(String),
}

impl View for LockState {
    type V = LockStateView;

    open spec fn view(&self) -> LockStateView {
        match self {
            LockState::Unlocked => LockStateView::Unlocked,
            LockState::Locked(info) => LockStateView::Locked(info@),
            LockState::Unreadable(reason) => LockStateView::Unreadable(reason@),
        }
    }
}

/// The mathematical content of a [`LockError`].
pub enum LockErrorView {
    AlreadyRunning { project_id: Seq<char>, pid: i32 },
    Unreadable(Seq<char>),
    SignalFailed { pid: i32, reason: Seq<char> },
}

/// Why the lock was not given, or a signal not sent.
#[derive(Debug)]
pub enum LockError {
    /// A live watcher holds the lock.
    AlreadyRunning { project_id: String, pid: i32 },
    /// The lock file cannot be read as a lock.
    Unreadable(String),
    /// The termination request could not be delivered.
    SignalFailed { pid: i32, reason: String },
}

impl View for LockError {
    type V = LockErrorView;

    open spec fn view(&self) -> LockErrorView {
        match self {
            LockError::AlreadyRunning { project_id, pid } => LockErrorView::AlreadyRunning {
                project_id: project_id@,
                pid: *pid,
            },
            LockError::Unreadable(reason) => LockErrorView::Unreadable(reason@),
            LockError::SignalFailed { pid, reason } => LockErrorView::SignalFailed {
                pid: *pid,
                reason: reason@,
            },
        }
    }
}

/// How an attempt to signal a process ended.
#[derive(Debug)]
pub enum SignalOutcome {
    /// The signal was delivered.
    Delivered,
    /// There is no such process.
    NoSuchProcess,
    /// The system refused; its error is kept.
    Failed(String),
}

/// Whether a process can be taken to run: its pid is positive and the
/// existence probe reached it.
pub open spec fn alive(pid: i32, probe_delivered: bool) -> bool {
    pid > 0 && probe_delivered
}

/// Whether the process with the given pid runs, going by the outcome of an
/// existence probe (a signal that is checked for but not delivered). A pid
/// that is not positive is never alive, whatever the probe says.
pub fn is_process_alive(pid: i32, probe_delivered: bool) -> (r: bool)
    ensures
        r == alive(pid, probe_delivered),
{
    pid > 0 && probe_delivered
}

/// Whether the existence probe has to be made at all to know if the process
/// runs.
pub fn needs_probe(pid: i32) -> (r: bool)
    ensures
        r == (pid > 0),
        !r ==> forall|probe: bool| !alive(pid, probe),
{
    pid > 0
}

/// What a termination request to `pid` comes to: it succeeded where the
/// signal was delivered or the process is gone already, and failed with
/// the system's error otherwise.
pub fn send_terminate(pid: i32, outcome: SignalOutcome) -> (r: Result<(), LockError>)
    ensures
        match outcome {
            SignalOutcome::Delivered => r is Ok,
            SignalOutcome::NoSuchProcess => r is Ok,
            SignalOutcome::Failed(reason) => r matches Err(e) && e@ == (
            LockErrorView::SignalFailed { pid, reason: reason@ }),
        },
{
    match outcome {
        SignalOutcome::Delivered => Ok(()),
        SignalOutcome::NoSuchProcess => Ok(()),
        SignalOutcome::Failed(reason) => Err(LockError::SignalFailed { pid, reason }),
    }
}

/// A lock that was given: the file to write, and whether a stale file has
/// to be removed first.
#[derive(Debug)]
pub struct Acquired {
    /// The handle that releases the lock.
    pub lock: WatchLock,
    /// The owner to write into the lock file.
    pub info: LockInfo,
    /// Whether a lock file of a dead owner stands in the way.
    pub remove_stale: bool,
}

/// The handle of a held lock. Giving it up names the file to remove.
#[derive(Debug)]
pub struct WatchLock {
    path: String,
}

impl WatchLock {
    /// The path of the lock file.
    pub closed spec fn file(&self) -> Seq<char> {
        self.path@
    }

    /// The path of the lock file of a project with the given metadata
    /// directory.
    pub fn path(meta_dir: &str) -> (p: String)
        ensures
            p@ == join_path(meta_dir@, LOCK_FILENAME@),
    {
        join(meta_dir, LOCK_FILENAME)
    }

    /// The path of this lock's file.
    pub fn file_path(&self) -> (p: &str)
        ensures
            p@ == self.file(),
    {
        self.path.as_str()
    }

    /// Decides an attempt to take the lock.
    ///
    /// `found` is what stands at the lock's path, and `probe_delivered` the
    /// outcome of the existence probe of its owner (it does not matter
    /// where there is no owner or the owner's pid is not positive). `pid`
    /// is the caller's process and `now` the time in seconds since the
    /// epoch.
    ///
    /// A lock whose owner is alive is not given: the attempt fails and
    /// nothing is to be written or removed. A file that is no lock fails
    /// the attempt as well. Otherwise the lock is given to the caller, and
    /// a lock of a dead owner is stale and to be removed first.
    pub fn acquire(
        meta_dir: &str,
        project_id: &str,
        found: LockState,
        probe_delivered: bool,
        pid: i32,
        now: i64,
    ) -> (r: Result<Acquired, LockError>)
        ensures
            match found@ {
                LockStateView::Locked(owner) if alive(owner.pid, probe_delivered) => r matches Err(
                    e,
                ) && e@ == (LockErrorView::AlreadyRunning {
                    project_id: owner.project_id,
                    pid: owner.pid,
                }),
                LockStateView::Unreadable(reason) => r matches Err(e) && e@
                    == LockErrorView::Unreadable(reason),
                _ => r matches Ok(acquired) && {
                    &&& acquired.lock.file() == join_path(meta_dir@, LOCK_FILENAME@)
                    &&& acquired.info@ == (LockInfoView {
                        project_id: project_id@,
                        pid,
                        started_at: now,
                        tool_version: TOOL_VERSION@,
                    })
                    &&& acquired.remove_stale == (found@ is Locked)
                },
            },
    {
        let remove_stale = match found {
            LockState::Unlocked => false,
            LockState::Locked(owner) => {
                if is_process_alive(owner.pid, probe_delivered) {
                    return Err(
                        LockError::AlreadyRunning { project_id: owner.project_id, pid: owner.pid },
                    );
                }
                true
            },
            LockState::Unreadable(reason) => {
                return Err(LockError::Unreadable(reason));
            },
        };
        let info = LockInfo {
            project_id: project_id.to_owned(),
            pid,
            started_at: now,
            tool_version: tool_version(),
        };
        let lock = WatchLock { path: WatchLock::path(meta_dir) };
        Ok(Acquired { lock, info, remove_stale })
    }

    /// Gives the lock up: the lock file, which is to be removed.
    pub fn release(self) -> (path: String)
        ensures
            path@ == self.file(),
    {
        self.path
    }
}

} // verus!

//! One watch session: what the watcher does about each thing that happens
//! to it.

use vstd::prelude::*;

use crate::watcher::microbatch::{Batch, BatchView, DEFAULT_WINDOW_MS};

verus! {

/// What a watch session is started with: the project root, and the quiet
/// window that closes a batch, in milliseconds.
#[derive(Debug)]
pub struct WatchOptions {
    pub project_root: String,
    pub window_ms: u64,
}

impl Default for WatchOptions {
    /// The project in the current directory, with the default window.
    fn default() -> (options: WatchOptions)
        ensures
            options.project_root@ == "."@,
            options.window_ms == DEFAULT_WINDOW_MS,
    {
        WatchOptions { project_root: ".".to_owned(), window_ms: DEFAULT_WINDOW_MS }
    }
}

/// Whether a session goes on.
#[derive(Clone, Copy, Debug, PartialEq, Eq, Structural)]
pub enum WatchState {
    Running,
    Stopped,
}

/// The mathematical content of a [`WatchEvent`].
pub enum WatchEventView {
    Interrupt,
    Terminate,
    BatchClosed(BatchView),
    SourceClosed,
    BatchDone { failed: bool },
}

/// What can happen to a watch session.
#[derive(Debug)]
pub enum WatchEvent {
    /// The user interrupted the watcher.
    Interrupt,
    /// The watcher was asked to terminate.
    Terminate,
    /// The micro-batcher closed a batch.
    BatchClosed(Batch),
    /// The event source closed.
    SourceClosed,
    /// A batch was processed, or was abandoned with an error.
    BatchDone { failed: bool },
}

impl View for WatchEvent {
    type V = WatchEventView;

    open spec fn view(&self) -> WatchEventView {
        match self {
            WatchEvent::Interrupt => WatchEventView::Interrupt,
            WatchEvent::Terminate => WatchEventView::Terminate,
            WatchEvent::BatchClosed(batch) => WatchEventView::BatchClosed(batch@),
            WatchEvent::SourceClosed => WatchEventView::SourceClosed,
            WatchEvent::BatchDone { failed } => WatchEventView::BatchDone { failed: *failed },
        }
    }
}

/// The mathematical content of a [`WatchAction`].
pub enum WatchActionView {
    Process(BatchView),
    ReleaseLock,
    Wait,
}

/// What the session has to do next.
#[derive(Debug)]
pub enum WatchAction {
    /// Process this batch, before anything else is looked at.
    Process(Batch),
    /// Release the process lock and return.
    ReleaseLock,
    /// Wait for the next thing to happen.
    Wait,
}

impl View for WatchAction {
    type V = WatchActionView;

    open spec fn view(&self) -> WatchActionView {
        match self {
            WatchAction::Process(batch) => WatchActionView::Process(batch@),
            WatchAction::ReleaseLock => WatchActionView::ReleaseLock,
            WatchAction::Wait => WatchActionView::Wait,
        }
    }
}

/// The state of a session after an event: a signal or the end of the event
/// source stops it, and nothing else does. A batch that failed leaves it
/// running.
pub open spec fn state_after(state: WatchState, event: WatchEventView) -> WatchState {
    match (state, event) {
        (WatchState::Stopped, _) => WatchState::Stopped,
        (_, WatchEventView::Interrupt) => WatchState::Stopped,
        (_, WatchEventView::Terminate) => WatchState::Stopped,
        (_, WatchEventView::SourceClosed) => WatchState::Stopped,
        (_, WatchEventView::BatchClosed(_)) => WatchState::Running,
        (_, WatchEventView::BatchDone { .. }) => WatchState::Running,
    }
}

/// What a session does about an event: a running session processes each
/// closed batch and releases the lock when it stops; a stopped session
/// does nothing more.
pub open spec fn action_for(state: WatchState, event: WatchEventView) -> WatchActionView {
    match (state, event) {
        (WatchState::Stopped, _) => WatchActionView::Wait,
        (_, WatchEventView::Interrupt) => WatchActionView::ReleaseLock,
        (_, WatchEventView::Terminate) => WatchActionView::ReleaseLock,
        (_, WatchEventView::SourceClosed) => WatchActionView::ReleaseLock,
        (_, WatchEventView::BatchClosed(batch)) => WatchActionView::Process(batch),
        (_, WatchEventView::BatchDone { .. }) => WatchActionView::Wait,
    }
}

/// Takes one event of a watch session: the next state, and what to do.
pub fn watch(state: WatchState, event: WatchEvent) -> (r: (WatchState, WatchAction))
    ensures
        r.0 == state_after(state, event@),
        r.1@ == action_for(state, event@),
{
    match state {
        WatchState::Stopped => (WatchState::Stopped, WatchAction::Wait),
        WatchState::Running => match event {
            WatchEvent::Interrupt => (WatchState::Stopped, WatchAction::ReleaseLock),
            WatchEvent::Terminate => (WatchState::Stopped, WatchAction::ReleaseLock),
            WatchEvent::SourceClosed => (WatchState::Stopped, WatchAction::ReleaseLock),
            WatchEvent::BatchClosed(batch) => (WatchState::Running, WatchAction::Process(batch)),
            WatchEvent::BatchDone { failed } => (WatchState::Running, WatchAction::Wait),
        },
    }
}

} // verus!

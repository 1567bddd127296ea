//! The micro-batcher: a burst of file-system events becomes one batch once
//! the events have been quiet for a window of time.
//!
//! The batcher decides; whoever drives it receives the events, keeps the
//! timer and tells the time.

use vstd::prelude::*;

use crate::watcher::paths::{events_view, EventPathView, FsEvent};

verus! {

/// The quiet window that closes a batch, in milliseconds, unless another is
/// asked for.
pub const DEFAULT_WINDOW_MS: u64 = 50;

/// The mathematical content of a [`Batch`].
pub struct BatchView {
    pub events: Seq<Seq<EventPathView>>,
    pub started_at: i64,
    pub ended_at: i64,
}

/// The events of one burst, with the time of the first event and the time
/// at which the burst was found to be over, in milliseconds since the
/// epoch.
#[derive(Debug)]
pub struct Batch {
    pub events: Vec<FsEvent>,
    pub started_at: i64,
    pub ended_at: i64,
}

impl View for Batch {
    type V = BatchView;

    open spec fn view(&self) -> BatchView {
        BatchView {
            events: events_view(self.events@),
            started_at: self.started_at,
            ended_at: self.ended_at,
        }
    }
}

/// The mathematical content of a [`Batcher`].
pub enum BatcherView {
    Idle,
    Collecting { events: Seq<Seq<EventPathView>>, started_at: i64 },
    Closed,
}

/// The state of the micro-batcher.
#[derive(Debug)]
pub enum Batcher {
    /// No batch is open.
    Idle,
    /// A batch is open: its events so far and the time of the first.
    Collecting { events: Vec<FsEvent>, started_at: i64 },
    /// The event source has closed.
    Closed,
}

impl View for Batcher {
    type V = BatcherView;

    open spec fn view(&self) -> BatcherView {
        match self {
            Batcher::Idle => BatcherView::Idle,
            Batcher::Collecting { events, started_at } => BatcherView::Collecting {
                events: events_view(events@),
                started_at: *started_at,
            },
            Batcher::Closed => BatcherView::Closed,
        }
    }
}

/// The mathematical content of a [`BatcherInput`].
pub enum BatcherInputView {
    Event(Seq<EventPathView>),
    QuietElapsed,
    SourceClosed,
}

/// What can happen to the micro-batcher.
#[derive(Debug)]
pub enum BatcherInput {
    /// An event arrived.
    Event(FsEvent),
    /// The timer fired: no event arrived for a whole window.
    QuietElapsed,
    /// The event source closed.
    SourceClosed,
}

impl View for BatcherInput {
    type V = BatcherInputView;

    open spec fn view(&self) -> BatcherInputView {
        match self {
            BatcherInput::Event(event) => BatcherInputView::Event(event@),
            BatcherInput::QuietElapsed => BatcherInputView::QuietElapsed,
            BatcherInput::SourceClosed => BatcherInputView::SourceClosed,
        }
    }
}

/// The mathematical content of a [`BatcherAction`].
pub enum BatcherActionView {
    ArmTimer,
    Emit(BatchView),
    EndOfStream,
    Wait,
}

/// What the driver of the micro-batcher has to do next.
#[derive(Debug)]
pub enum BatcherAction {
    /// Set the timer to fire one window from now, in place of any earlier
    /// setting.
    ArmTimer,
    /// Hand this batch on.
    Emit(Batch),
    /// Stop: there will be no more batches.
    EndOfStream,
    /// Nothing: go on waiting.
    Wait,
}

impl View for BatcherAction {
    type V = BatcherActionView;

    open spec fn view(&self) -> BatcherActionView {
        match self {
            BatcherAction::ArmTimer => BatcherActionView::ArmTimer,
            BatcherAction::Emit(batch) => BatcherActionView::Emit(batch@),
            BatcherAction::EndOfStream => BatcherActionView::EndOfStream,
            BatcherAction::Wait => BatcherActionView::Wait,
        }
    }
}

/// The next state of the micro-batcher.
///
/// The first event after idle opens a batch that starts now. Every event
/// joins the open batch. A quiet window closes the open batch, which ends
/// now. When the source closes, an open batch is dropped and the batcher
/// stays closed.
pub open spec fn next_state(state: BatcherView, input: BatcherInputView, now: i64) -> BatcherView {
    match (state, input) {
        (BatcherView::Closed, _) => BatcherView::Closed,
        (_, BatcherInputView::SourceClosed) => BatcherView::Closed,
        (BatcherView::Idle, BatcherInputView::Event(event)) => BatcherView::Collecting {
            events: seq![event],
            started_at: now,
        },
        (
            BatcherView::Collecting { events, started_at },
            BatcherInputView::Event(event),
        ) => BatcherView::Collecting { events: events.push(event), started_at },
        (_, BatcherInputView::QuietElapsed) => BatcherView::Idle,
    }
}

/// What the driver is told to do.
///
/// Every event sets the timer anew, so that it fires one window after the
/// last event. A quiet window emits the open batch; without an open batch
/// it asks for nothing. A closed source ends the stream.
pub open spec fn next_action(
    state: BatcherView,
    input: BatcherInputView,
    now: i64,
) -> BatcherActionView {
    match (state, input) {
        (BatcherView::Closed, _) => BatcherActionView::EndOfStream,
        (_, BatcherInputView::SourceClosed) => BatcherActionView::EndOfStream,
        (_, BatcherInputView::Event(_)) => BatcherActionView::ArmTimer,
        (
            BatcherView::Collecting { events, started_at },
            BatcherInputView::QuietElapsed,
        ) => BatcherActionView::Emit(BatchView { events, started_at, ended_at: now }),
        (BatcherView::Idle, BatcherInputView::QuietElapsed) => BatcherActionView::Wait,
    }
}

/// The state after a run of events, each with the time of its arrival.
pub open spec fn after_events(
    state: BatcherView,
    events: Seq<Seq<EventPathView>>,
    times: Seq<i64>,
) -> BatcherView
    decreases events.len(),
{
    if events.len() == 0 {
        state
    } else {
        next_state(
            after_events(state, events.drop_last(), times.drop_last()),
            BatcherInputView::Event(events.last()),
            times.last(),
        )
    }
}

/// However long a burst lasts, the idle batcher collects all of its events
/// in one batch, in the order of their arrival, that starts with the first.
pub proof fn lemma_burst_is_one_batch(events: Seq<Seq<EventPathView>>, times: Seq<i64>)
    requires
        events.len() > 0,
        times.len() == events.len(),
    ensures
        after_events(BatcherView::Idle, events, times) == (BatcherView::Collecting {
            events,
            started_at: times[0],
        }),
    decreases events.len(),
{
    if events.len() == 1 {
        assert(after_events(BatcherView::Idle, events.drop_last(), times.drop_last())
            == BatcherView::Idle);
        assert(events =~= seq![events.last()]);
    } else {
        lemma_burst_is_one_batch(events.drop_last(), times.drop_last());
        assert(events.drop_last().push(events.last()) =~= events);
        assert(times.drop_last()[0] == times[0]);
    }
}

/// Once the burst is quiet for a window, the batch is emitted whole: with
/// every event of the burst, the time of the first, and the time of the
/// quiet.
pub proof fn lemma_quiet_emits_burst(events: Seq<Seq<EventPathView>>, times: Seq<i64>, now: i64)
    requires
        events.len() > 0,
        times.len() == events.len(),
    ensures
        next_action(
            after_events(BatcherView::Idle, events, times),
            BatcherInputView::QuietElapsed,
            now,
        ) == BatcherActionView::Emit(BatchView { events, started_at: times[0], ended_at: now }),
        next_state(
            after_events(BatcherView::Idle, events, times),
            BatcherInputView::QuietElapsed,
            now,
        ) == BatcherView::Idle,
{
    lemma_burst_is_one_batch(events, times);
}

impl Batcher {
    /// A batcher with no batch open.
    pub fn new() -> (b: Batcher)
        ensures
            b@ == BatcherView::Idle,
    {
        Batcher::Idle
    }
}

/// Takes one input of the micro-batcher at the time `now` (milliseconds
/// since the epoch): the next state, and what the driver has to do to get
/// at the next batch.
pub fn next_batch(batcher: Batcher, input: BatcherInput, now: i64) -> (r: (Batcher, BatcherAction))
    ensures
        r.0@ == next_state(batcher@, input@, now),
        r.1@ == next_action(batcher@, input@, now),
{
    match batcher {
        Batcher::Closed => (Batcher::Closed, BatcherAction::EndOfStream),
        Batcher::Idle => match input {
            BatcherInput::SourceClosed => (Batcher::Closed, BatcherAction::EndOfStream),
            BatcherInput::Event(event) => {
                let mut events: Vec<FsEvent> = Vec::new();
                events.push(event);
                assert(events_view(events@) =~= seq![event@]);
                (Batcher::Collecting { events, started_at: now }, BatcherAction::ArmTimer)
            },
            BatcherInput::QuietElapsed => (Batcher::Idle, BatcherAction::Wait),
        },
        Batcher::Collecting { events, started_at } => match input {
            BatcherInput::SourceClosed => (Batcher::Closed, BatcherAction::EndOfStream),
            BatcherInput::Event(event) => {
                let ghost before = events_view(events@);
                let mut events = events;
                events.push(event);
                assert(events_view(events@) =~= before.push(event@));
                (Batcher::Collecting { events, started_at }, BatcherAction::ArmTimer)
            },
            BatcherInput::QuietElapsed => (
                Batcher::Idle,
                BatcherAction::Emit(Batch { events, started_at, ended_at: now }),
            ),
        },
    }
}

} // verus!

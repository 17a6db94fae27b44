//! The watch loop as a state machine. The caller owns the change source and
//! the queue connection: it hands each thing that happens to
//! [`WatchLoop::step`] and does what the returned [`Action`] says.

use crate::event::{classified, classify, reportable};
use crate::publish::PublishError;
use crate::record::{RawChangeRecord, RecordView};
use crate::timestamp::{CivilTime, Timestamp};
use crate::wire::{encode, encoding, format_event};
use vstd::prelude::*;

verus! {

/// Why a watch ended in failure.
#[derive(Clone, Copy, Debug, PartialEq, Eq, Structural)]
pub enum WatchError {
    /// The change source could not be subscribed to.
    Subscription,
    /// The queue connection could not be opened.
    Connection,
    /// An append to the queue failed.
    Publish(PublishError),
    /// The change source failed for good.
    Source,
}

/// How a watch ended.
#[derive(Clone, Copy, Debug, PartialEq, Eq, Structural)]
pub enum Outcome {
    /// The source ended; nothing went wrong.
    Finished,
    /// The watch failed.
    Failed(WatchError),
}

impl Outcome {
    /// The outcome as the result that the watch returns to its caller.
    pub fn into_result(self) -> (result: Result<(), WatchError>)
        ensures
            result == match self {
                Outcome::Finished => Ok::<(), WatchError>(()),
                Outcome::Failed(error) => Err::<(), WatchError>(error),
            },
    {
        match self {
            Outcome::Finished => Ok(()),
            Outcome::Failed(error) => Err(error),
        }
    }
}

/// The state of a watch loop: running, or stopped with how it ended.
#[derive(Clone, Copy, Debug, PartialEq, Eq, Structural)]
pub enum LoopState {
    Running,
    Stopped(Outcome),
}

/// What happened outside the loop.
#[derive(Clone, Debug, PartialEq, Eq)]
pub enum Signal {
    /// The source delivered a record.
    Record(RawChangeRecord),
    /// The append that the loop asked for succeeded.
    Published,
    /// The append that the loop asked for failed.
    PublishFailed(PublishError),
    /// The source ended.
    SourceClosed,
    /// The source failed for good.
    SourceFailed,
}

/// What the caller is to do next.
#[derive(Clone, Debug, PartialEq, Eq)]
pub enum Action {
    /// Append this text to the queue list, once, and report `Published`
    /// or `PublishFailed`.
    Publish(String),
    /// Take the next record from the source.
    Continue,
    /// Leave the loop and return this to the caller.
    Exit(Outcome),
}

/// The mathematical model of a [`Signal`].
pub enum SignalView {
    Record(RecordView),
    Published,
    PublishFailed(PublishError),
    SourceClosed,
    SourceFailed,
}

/// The mathematical model of an [`Action`].
pub enum ActionView {
    Publish(Seq<char>),
    Continue,
    Exit(Outcome),
}

impl View for Signal {
    type V = SignalView;

    open spec fn view(&self) -> SignalView {
        match self {
            Signal::Record(record) => SignalView::Record(record@),
            Signal::Published => SignalView::Published,
            Signal::PublishFailed(error) => SignalView::PublishFailed(*error),
            Signal::SourceClosed => SignalView::SourceClosed,
            Signal::SourceFailed => SignalView::SourceFailed,
        }
    }
}

impl View for Action {
    type V = ActionView;

    open spec fn view(&self) -> ActionView {
        match self {
            Action::Publish(text) => ActionView::Publish(text@),
            Action::Continue => ActionView::Continue,
            Action::Exit(outcome) => ActionView::Exit(*outcome),
        }
    }
}

/// The state after a signal. A running loop keeps running on a record and
/// on a successful append; a failed append or the end of the source stops
/// it. A stopped loop stays as it is.
pub open spec fn next_state(state: LoopState, signal: SignalView) -> LoopState {
    match state {
        LoopState::Stopped(_) => state,
        LoopState::Running => match signal {
            SignalView::Record(_) => LoopState::Running,
            SignalView::Published => LoopState::Running,
            SignalView::PublishFailed(error) => LoopState::Stopped(Outcome::Failed(WatchError::Publish(error))),
            SignalView::SourceClosed => LoopState::Stopped(Outcome::Finished),
            SignalView::SourceFailed => LoopState::Stopped(Outcome::Failed(WatchError::Source)),
        },
    }
}

/// What a signal taken at the time `now` asks of the caller. A record that
/// stands for an event has the event's encoding published; one that stands
/// for none is passed over. A stopped loop only ever says how it ended.
pub open spec fn action_for(state: LoopState, signal: SignalView, now: CivilTime) -> ActionView {
    match state {
        LoopState::Stopped(outcome) => ActionView::Exit(outcome),
        LoopState::Running => match signal {
            SignalView::Record(record) => match encoding(classified(record, now)) {
                Some(text) => ActionView::Publish(text),
                None => ActionView::Continue,
            },
            SignalView::Published => ActionView::Continue,
            SignalView::PublishFailed(error) => ActionView::Exit(Outcome::Failed(WatchError::Publish(error))),
            SignalView::SourceClosed => ActionView::Exit(Outcome::Finished),
            SignalView::SourceFailed => ActionView::Exit(Outcome::Failed(WatchError::Source)),
        },
    }
}

/// Whether a signal is answered with `Publish`, whatever the time: the loop
/// is running and the signal is a record that stands for an event.
pub open spec fn asks_to_publish(state: LoopState, signal: SignalView) -> bool {
    state is Running && match signal {
        SignalView::Record(record) => reportable(record),
        _ => false,
    }
}

/// The loop, and what the queue has received, after `records` came from the
/// source one after the other, each taken at its time, with every append
/// succeeding.
pub open spec fn run(records: Seq<(RecordView, CivilTime)>) -> (LoopState, Seq<Seq<char>>)
    decreases records.len(),
{
    if records.len() == 0 {
        (LoopState::Running, Seq::empty())
    } else {
        let (state, queue) = run(records.drop_last());
        let (record, now) = records.last();
        let signal = SignalView::Record(record);
        match action_for(state, signal, now) {
            ActionView::Publish(text) => (
                next_state(next_state(state, signal), SignalView::Published),
                queue.push(text),
            ),
            _ => (next_state(state, signal), queue),
        }
    }
}

/// A watch loop. It can only be started once the source is subscribed to
/// and the queue connection is open.
#[derive(Debug)]
pub struct WatchLoop {
    state: LoopState,
}

impl View for WatchLoop {
    type V = LoopState;

    closed spec fn view(&self) -> LoopState {
        self.state
    }
}

impl WatchLoop {
    /// Starts the loop, given whether the subscription to the change
    /// source and the opening of the queue connection succeeded. Both must
    /// have: else there is no loop, and the error says which failed, the
    /// subscription first.
    pub fn start(subscribed: bool, connected: bool) -> (started: Result<WatchLoop, WatchError>)
        ensures
            started is Ok <==> subscribed && connected,
            started matches Ok(watch) ==> watch@ == LoopState::Running,
            started matches Err(error) ==> error == if !subscribed {
                WatchError::Subscription
            } else {
                WatchError::Connection
            },
    {
        if !subscribed {
            Err(WatchError::Subscription)
        } else if !connected {
            Err(WatchError::Connection)
        } else {
            Ok(WatchLoop { state: LoopState::Running })
        }
    }

    pub fn state(&self) -> (state: LoopState)
        ensures
            state == self@,
    {
        self.state
    }

    pub fn is_running(&self) -> (running: bool)
        ensures
            running == (self@ is Running),
    {
        match self.state {
            LoopState::Running => true,
            LoopState::Stopped(_) => false,
        }
    }

    /// Takes a signal that is no record: the next state and the action do
    /// not depend on the time.
    fn settle(&mut self, signal: Signal) -> (action: Action)
        requires
            signal !is Record,
        ensures
            final(self)@ == next_state(old(self)@, signal@),
            forall|now: CivilTime| action@ == #[trigger] action_for(old(self)@, signal@, now),
    {
        match self.state {
            LoopState::Stopped(outcome) => Action::Exit(outcome),
            LoopState::Running => match signal {
                Signal::PublishFailed(error) => {
                    let outcome = Outcome::Failed(WatchError::Publish(error));
                    self.state = LoopState::Stopped(outcome);
                    Action::Exit(outcome)
                },
                Signal::SourceClosed => {
                    self.state = LoopState::Stopped(Outcome::Finished);
                    Action::Exit(Outcome::Finished)
                },
                Signal::SourceFailed => {
                    let outcome = Outcome::Failed(WatchError::Source);
                    self.state = LoopState::Stopped(outcome);
                    Action::Exit(outcome)
                },
                _ => Action::Continue,
            },
        }
    }

    /// Takes one signal at the time `now`: moves to the next state and
    /// says what to do.
    pub fn step_at(&mut self, signal: Signal, now: Timestamp) -> (action: Action)
        ensures
            final(self)@ == next_state(old(self)@, signal@),
            action@ == action_for(old(self)@, signal@, now@),
    {
        match signal {
            Signal::Record(record) => match self.state {
                LoopState::Stopped(outcome) => Action::Exit(outcome),
                LoopState::Running => {
                    let event = classify(&record, now);
                    match encode(&event) {
                        Some(text) => Action::Publish(text),
                        None => Action::Continue,
                    }
                },
            },
            other => self.settle(other),
        }
    }

    /// Takes one signal now. A record is classified at the time that the
    /// clock gives, and no other signal reads the clock. The next state
    /// does not depend on the clock; the action is the one for some valid
    /// time.
    pub fn step(&mut self, signal: Signal) -> (action: Action)
        ensures
            final(self)@ == next_state(old(self)@, signal@),
            exists|now: CivilTime| now.valid() && action@ == #[trigger] action_for(
                old(self)@,
                signal@,
                now,
            ),
            action is Publish <==> asks_to_publish(old(self)@, signal@),
    {
        let ghost seen = signal@;
        let ghost epoch = CivilTime { year: 1970, month: 1, day: 1, hour: 0, minute: 0, second: 0 };
        assert(epoch.valid());
        match signal {
            Signal::Record(record) => match self.state {
                LoopState::Stopped(outcome) => {
                    assert(Action::Exit(outcome)@ == action_for(self@, seen, epoch));
                    Action::Exit(outcome)
                },
                LoopState::Running => match format_event(record) {
                    Some(text) => {
                        proof {
                            let now = choose|now: CivilTime|
                                now.valid() && #[trigger] encoding(classified(record@, now))
                                    == Some(text@);
                            assert(ActionView::Publish(text@) == action_for(self@, seen, now));
                        }
                        Action::Publish(text)
                    },
                    None => {
                        assert(ActionView::Continue == action_for(self@, seen, epoch));
                        Action::Continue
                    },
                },
            },
            other => {
                let action = self.settle(other);
                assert(action@ == action_for(old(self)@, seen, epoch));
                action
            },
        }
    }
}

/// `Nothing` never reaches the queue: where a record is answered with
/// `Publish`, it stands for an event, and the text is that event's
/// encoding.
pub proof fn lemma_nothing_is_never_published(
    state: LoopState,
    record: RecordView,
    now: CivilTime,
)
    ensures
        action_for(state, SignalView::Record(record), now) matches ActionView::Publish(text) ==> {
            &&& state is Running
            &&& classified(record, now) !is Nothing
            &&& reportable(record)
            &&& encoding(classified(record, now)) == Some(text)
        },
        classified(record, now) is Nothing ==> action_for(state, SignalView::Record(record), now)
            !is Publish,
{
}

/// A failed append ends the loop with that error; nothing is tried again.
/// Once stopped, the loop stays stopped and only ever says how it ended.
pub proof fn lemma_failure_is_final(
    error: PublishError,
    later: SignalView,
    now: CivilTime,
)
    ensures
        ({
            let stopped = next_state(LoopState::Running, SignalView::PublishFailed(error));
            &&& stopped == LoopState::Stopped(Outcome::Failed(WatchError::Publish(error)))
            &&& action_for(LoopState::Running, SignalView::PublishFailed(error), now)
                == ActionView::Exit(Outcome::Failed(WatchError::Publish(error)))
            &&& next_state(stopped, later) == stopped
            &&& action_for(stopped, later, now) == ActionView::Exit(
                Outcome::Failed(WatchError::Publish(error)),
            )
        }),
{
}

/// While every append succeeds the loop keeps running, and what goes to
/// the queue for more records starts with what went for fewer.
pub proof fn lemma_run_extends(records: Seq<(RecordView, CivilTime)>, more: Seq<
    (RecordView, CivilTime),
>)
    ensures
        run(records).0 == LoopState::Running,
        run(records).1.len() <= records.len(),
        run(records).1.is_prefix_of(run(records + more).1),
    decreases more.len(),
{
    lemma_run_keeps_running(records);
    if more.len() == 0 {
        assert(records + more =~= records);
    } else {
        lemma_run_extends(records, more.drop_last());
        lemma_run_keeps_running(records + more.drop_last());
        assert((records + more).drop_last() =~= records + more.drop_last());
    }
}

proof fn lemma_run_keeps_running(records: Seq<(RecordView, CivilTime)>)
    ensures
        run(records).0 == LoopState::Running,
        run(records).1.len() <= records.len(),
    decreases records.len(),
{
    if records.len() > 0 {
        lemma_run_keeps_running(records.drop_last());
    }
}

/// First in, first out: where each of `records` stands for an event, the
/// queue receives as many texts as there were records, and the text at
/// each place is the encoding of the event of the record at that place.
pub proof fn lemma_fifo(records: Seq<(RecordView, CivilTime)>)
    requires
        forall|i: int| 0 <= i < records.len() ==> reportable((#[trigger] records[i]).0),
    ensures
        run(records).0 == LoopState::Running,
        run(records).1.len() == records.len(),
        forall|i: int|
            0 <= i < records.len() ==> encoding(classified(records[i].0, records[i].1)) == Some(
                #[trigger] run(records).1[i],
            ),
    decreases records.len(),
{
    if records.len() > 0 {
        let front = records.drop_last();
        lemma_fifo(front);
        assert(reportable(records.last().0));
        assert forall|i: int| 0 <= i < records.len() implies encoding(
            classified(records[i].0, records[i].1),
        ) == Some(#[trigger] run(records).1[i]) by {
            if i < front.len() {
                assert(front[i] == records[i]);
                assert(run(records).1[i] == run(front).1[i]);
            }
        }
    }
}

} // verus!

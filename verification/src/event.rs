//! The events that are published, and the rules that make one from a record.

use crate::record::{ChangeKind, RawChangeRecord, RecordView};
use crate::timestamp::{utc_now, CivilTime, Timestamp};
use vstd::prelude::*;

verus! {

/// What happened to a file, as consumers of the queue are told.
#[derive(Clone, Debug, PartialEq, Eq)]
pub enum Event {
    /// The file at `path` was created, written or had its metadata
    /// changed.
    Modify { path: String, time: Timestamp },
    /// The file was renamed from `from` to `to`.
    Move { from: String, to: String, time: Timestamp },
    /// The file at `path` is gone.
    Delete { path: String, time: Timestamp },
    /// The record means nothing to consumers. Never encoded or published.
    Nothing,
}

/// The mathematical model of an [`Event`].
pub enum EventView {
    Modify { path: Seq<char>, time: CivilTime },
    Move { from: Seq<char>, to: Seq<char>, time: CivilTime },
    Delete { path: Seq<char>, time: CivilTime },
    Nothing,
}

impl View for Event {
    type V = EventView;

    open spec fn view(&self) -> EventView {
        match self {
            Event::Modify { path, time } => EventView::Modify { path: path@, time: time@ },
            Event::Move { from, to, time } => EventView::Move { from: from@, to: to@, time: time@ },
            Event::Delete { path, time } => EventView::Delete { path: path@, time: time@ },
            Event::Nothing => EventView::Nothing,
        }
    }
}

impl EventView {
    /// The time of the event; `Nothing` has none.
    pub open spec fn time(self) -> Option<CivilTime> {
        match self {
            EventView::Modify { time, .. } => Some(time),
            EventView::Move { time, .. } => Some(time),
            EventView::Delete { time, .. } => Some(time),
            EventView::Nothing => None,
        }
    }

    /// The time is valid where there is one.
    pub open spec fn timed(self) -> bool {
        self.time() matches Some(time) ==> time.valid()
    }

    /// The event's time is valid, its paths are not empty, and a `Move`
    /// goes from one path to another.
    pub open spec fn well_formed(self) -> bool {
        &&& self.timed()
        &&& match self {
            EventView::Modify { path, .. } => path.len() > 0,
            EventView::Move { from, to, .. } => from.len() > 0 && to.len() > 0 && from != to,
            EventView::Delete { path, .. } => path.len() > 0,
            EventView::Nothing => true,
        }
    }
}

/// The event that a record stands for at the time `now`. The first rule
/// that applies decides:
///
/// 1. a rename in one record with two paths or more is a `Move` from the
///    first to the second;
/// 2. a creation, a write or a metadata change with a path is a `Modify` of
///    the first path;
/// 3. a removal with a path is a `Delete` of the first path;
/// 4. anything else is `Nothing`.
pub open spec fn classified(record: RecordView, now: CivilTime) -> EventView {
    if record.kind == ChangeKind::RenameBoth && record.paths.len() >= 2 {
        EventView::Move { from: record.paths[0], to: record.paths[1], time: now }
    } else if (record.kind == ChangeKind::Create || record.kind == ChangeKind::Write || record.kind
        == ChangeKind::Metadata) && record.paths.len() >= 1 {
        EventView::Modify { path: record.paths[0], time: now }
    } else if record.kind == ChangeKind::Remove && record.paths.len() >= 1 {
        EventView::Delete { path: record.paths[0], time: now }
    } else {
        EventView::Nothing
    }
}

/// Whether a record stands for an event at all. The time plays no part.
pub open spec fn reportable(record: RecordView) -> bool {
    match record.kind {
        ChangeKind::RenameBoth => record.paths.len() >= 2,
        ChangeKind::Create | ChangeKind::Write | ChangeKind::Metadata | ChangeKind::Remove
            => record.paths.len() >= 1,
        ChangeKind::Other => false,
    }
}

/// Classifies one record: the event it stands for at the time `now`. This
/// never fails; a record that fits no rule gives `Event::Nothing`.
pub fn classify(record: &RawChangeRecord, now: Timestamp) -> (event: Event)
    ensures
        event@ == classified(record@, now@),
        event is Nothing <==> !reportable(record@),
        record@.names_files() ==> event@.well_formed(),
{
    proof {
        use_type_invariant(&now);
    }
    let count: usize = record.paths.len();
    match record.kind {
        ChangeKind::RenameBoth => {
            if count >= 2 {
                Event::Move {
                    from: record.paths[0].clone(),
                    to: record.paths[1].clone(),
                    time: now,
                }
            } else {
                Event::Nothing
            }
        },
        ChangeKind::Create | ChangeKind::Write | ChangeKind::Metadata => {
            if count >= 1 {
                Event::Modify { path: record.paths[0].clone(), time: now }
            } else {
                Event::Nothing
            }
        },
        ChangeKind::Remove => {
            if count >= 1 {
                Event::Delete { path: record.paths[0].clone(), time: now }
            } else {
                Event::Nothing
            }
        },
        ChangeKind::Other => Event::Nothing,
    }
}

impl Event {
    /// The event that `record` stands for now: reads the clock, then
    /// classifies. Whatever the clock gave, the event is the one that the
    /// rules make of the record at some valid time.
    pub fn from(record: RawChangeRecord) -> (event: Event)
        ensures
            event is Nothing <==> !reportable(record@),
            event@.timed(),
            event@.time() matches Some(now) ==> event@ == classified(record@, now),
            record@.names_files() ==> event@.well_formed(),
    {
        let now = utc_now();
        classify(&record, now)
    }
}

} // verus!

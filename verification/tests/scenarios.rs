use notify_redis::{
    decode, Action, ChangeKind, Event, Outcome, PublishError, RawChangeRecord, Signal, WatchError,
    WatchLoop,
};
use std::collections::VecDeque;

/// A list as the queue keeps it: values are pushed at the head and read from
/// the tail.
struct EventList {
    list: VecDeque<String>,
    fail_with: Option<PublishError>,
    attempts: usize,
}

impl EventList {
    fn new() -> Self {
        EventList { list: VecDeque::new(), fail_with: None, attempts: 0 }
    }

    fn failing(error: PublishError) -> Self {
        EventList { list: VecDeque::new(), fail_with: Some(error), attempts: 0 }
    }

    fn push(&mut self, text: String) -> Result<(), PublishError> {
        self.attempts += 1;
        match self.fail_with {
            Some(error) => Err(error),
            None => {
                self.list.push_front(text);
                Ok(())
            }
        }
    }

    fn next(&mut self) -> Option<Event> {
        self.list.pop_back().map(|raw| decode(&raw).unwrap())
    }
}

fn record(kind: ChangeKind, paths: &[&str]) -> RawChangeRecord {
    RawChangeRecord::new(kind, paths.iter().map(|p| p.to_string()).collect())
}

/// Runs the loop over what the source delivers, then over the end of the
/// source.
fn watch(source: Vec<RawChangeRecord>, list: &mut EventList) -> Result<(), WatchError> {
    let mut watch = WatchLoop::start(true, true)?;
    let mut signals: VecDeque<Signal> = source.into_iter().map(Signal::Record).collect();
    signals.push_back(Signal::SourceClosed);
    while let Some(signal) = signals.pop_front() {
        let mut action = watch.step(signal);
        loop {
            match action {
                Action::Publish(text) => {
                    action = match list.push(text) {
                        Ok(()) => watch.step(Signal::Published),
                        Err(error) => watch.step(Signal::PublishFailed(error)),
                    };
                }
                Action::Continue => break,
                Action::Exit(outcome) => return outcome.into_result(),
            }
        }
    }
    unreachable!("the loop leaves at the end of the source")
}

#[test]
fn test_basic() {
    let mut event_list = EventList::new();
    let result = watch(vec![record(ChangeKind::Write, &["/tmp/w/foo.txt"])], &mut event_list);
    assert_eq!(result, Ok(()));

    assert!(
        matches!(event_list.next(), Some(Event::Modify {path ,..}) if path.ends_with("foo.txt"))
    );
    assert!(matches!(event_list.next(), None));
}

#[test]
fn test_rename_debounce() {
    let mut event_list = EventList::new();
    let result = watch(vec![record(ChangeKind::Create, &["/tmp/w/bar.txt"])], &mut event_list);
    assert_eq!(result, Ok(()));

    assert!(
        matches!(event_list.next(), Some(Event::Modify {path ,..}) if path.ends_with("bar.txt"))
    );
    assert!(matches!(event_list.next(), None));
}

#[test]
fn test_rename_debounce_reported_as_rename() {
    let mut event_list = EventList::new();
    let source = vec![record(ChangeKind::RenameBoth, &["/tmp/w/foo.txt", "/tmp/w/bar.txt"])];
    assert_eq!(watch(source, &mut event_list), Ok(()));

    assert!(
        matches!(event_list.next(), Some(Event::Move {from, to ,..}) if from.ends_with("foo.txt") && to.ends_with("bar.txt"))
    );
    assert!(matches!(event_list.next(), None));
}

#[test]
fn test_rename() {
    let mut event_list = EventList::new();
    let source = vec![
        record(ChangeKind::Write, &["/tmp/w/foo.txt"]),
        record(ChangeKind::RenameBoth, &["/tmp/w/foo.txt", "/tmp/w/bar.txt"]),
    ];
    assert_eq!(watch(source, &mut event_list), Ok(()));

    assert!(
        matches!(event_list.next(), Some(Event::Modify {path ,..}) if path.ends_with("foo.txt"))
    );
    assert!(
        matches!(event_list.next(), Some(Event::Move {from, to ,..}) if from.ends_with("foo.txt") && to.ends_with("bar.txt"))
    );
    assert!(matches!(event_list.next(), None));
}

#[test]
fn test_delete() {
    let mut event_list = EventList::new();
    let source = vec![
        record(ChangeKind::Write, &["/tmp/w/foo.txt"]),
        record(ChangeKind::Remove, &["/tmp/w/foo.txt"]),
    ];
    assert_eq!(watch(source, &mut event_list), Ok(()));

    assert!(
        matches!(event_list.next(), Some(Event::Modify {path ,..}) if path.ends_with("foo.txt"))
    );
    assert!(
        matches!(event_list.next(), Some(Event::Delete {path ,..}) if path.ends_with("foo.txt"))
    );
    assert!(matches!(event_list.next(), None));
}

#[test]
fn test_delete_debounce() {
    let mut event_list = EventList::new();
    assert_eq!(watch(vec![], &mut event_list), Ok(()));

    assert!(matches!(event_list.next(), None));
    assert_eq!(event_list.attempts, 0);
}

#[test]
fn test_records_without_meaning_are_not_published() {
    let mut event_list = EventList::new();
    let source = vec![
        record(ChangeKind::Other, &["/tmp/w/foo.txt"]),
        record(ChangeKind::RenameBoth, &["/tmp/w/foo.txt"]),
        record(ChangeKind::Remove, &[]),
        record(ChangeKind::Write, &["/tmp/w/foo.txt"]),
    ];
    assert_eq!(watch(source, &mut event_list), Ok(()));

    assert_eq!(event_list.attempts, 1);
    assert!(
        matches!(event_list.next(), Some(Event::Modify {path ,..}) if path.ends_with("foo.txt"))
    );
    assert!(matches!(event_list.next(), None));
}

#[test]
fn test_transport_failure_is_fatal() {
    let mut event_list = EventList::failing(PublishError::Transport);
    let source = vec![
        record(ChangeKind::Write, &["/tmp/w/foo.txt"]),
        record(ChangeKind::Remove, &["/tmp/w/foo.txt"]),
    ];
    let result = watch(source, &mut event_list);

    assert_eq!(result, Err(WatchError::Publish(PublishError::Transport)));
    assert_eq!(event_list.attempts, 1);
    assert!(matches!(event_list.next(), None));
}

#[test]
fn test_rejection_is_fatal() {
    let mut event_list = EventList::failing(PublishError::Rejected);
    let result = watch(vec![record(ChangeKind::Write, &["/tmp/w/foo.txt"])], &mut event_list);

    assert_eq!(result, Err(WatchError::Publish(PublishError::Rejected)));
    assert_eq!(event_list.attempts, 1);
}

#[test]
fn test_outcome_of_a_finished_watch() {
    assert_eq!(Outcome::Finished.into_result(), Ok(()));
}

use notify_redis::{classify, ChangeKind, Event, RawChangeRecord, Timestamp};

fn at() -> Timestamp {
    Timestamp::new(2024, 5, 17, 8, 30, 0).unwrap()
}

fn record(kind: ChangeKind, paths: &[&str]) -> RawChangeRecord {
    RawChangeRecord::new(kind, paths.iter().map(|p| p.to_string()).collect())
}

#[test]
fn rename_with_two_paths_is_a_move() {
    let event = classify(&record(ChangeKind::RenameBoth, &["/w/foo.txt", "/w/bar.txt"]), at());
    assert_eq!(
        event,
        Event::Move { from: "/w/foo.txt".to_string(), to: "/w/bar.txt".to_string(), time: at() }
    );
}

#[test]
fn rename_ignores_paths_beyond_the_second() {
    let event = classify(&record(ChangeKind::RenameBoth, &["a", "b", "c", "d"]), at());
    assert_eq!(event, Event::Move { from: "a".to_string(), to: "b".to_string(), time: at() });
}

#[test]
fn rename_with_one_path_is_nothing() {
    assert_eq!(classify(&record(ChangeKind::RenameBoth, &["/w/foo.txt"]), at()), Event::Nothing);
}

#[test]
fn rename_without_paths_is_nothing() {
    assert_eq!(classify(&record(ChangeKind::RenameBoth, &[]), at()), Event::Nothing);
}

#[test]
fn create_write_and_metadata_are_modify() {
    for kind in [ChangeKind::Create, ChangeKind::Write, ChangeKind::Metadata] {
        let event = classify(&record(kind, &["/w/foo.txt"]), at());
        assert_eq!(event, Event::Modify { path: "/w/foo.txt".to_string(), time: at() });
    }
}

#[test]
fn modify_takes_the_first_path() {
    let event = classify(&record(ChangeKind::Write, &["first", "second"]), at());
    assert_eq!(event, Event::Modify { path: "first".to_string(), time: at() });
}

#[test]
fn remove_is_delete_of_the_first_path() {
    let event = classify(&record(ChangeKind::Remove, &["/w/foo.txt", "/w/other"]), at());
    assert_eq!(event, Event::Delete { path: "/w/foo.txt".to_string(), time: at() });
}

#[test]
fn records_without_paths_are_nothing() {
    for kind in [
        ChangeKind::Create,
        ChangeKind::Write,
        ChangeKind::Metadata,
        ChangeKind::Remove,
        ChangeKind::Other,
    ] {
        assert_eq!(classify(&record(kind, &[]), at()), Event::Nothing);
    }
}

#[test]
fn other_kinds_are_nothing_whatever_the_paths() {
    assert_eq!(classify(&record(ChangeKind::Other, &["a"]), at()), Event::Nothing);
    assert_eq!(classify(&record(ChangeKind::Other, &["a", "b"]), at()), Event::Nothing);
}

#[test]
fn classification_takes_paths_as_they_are() {
    let event = classify(&record(ChangeKind::RenameBoth, &["", ""]), at());
    assert_eq!(event, Event::Move { from: String::new(), to: String::new(), time: at() });
}

#[test]
fn classification_is_total_over_kinds_and_path_counts() {
    let kinds = [
        ChangeKind::Create,
        ChangeKind::Write,
        ChangeKind::Metadata,
        ChangeKind::RenameBoth,
        ChangeKind::Remove,
        ChangeKind::Other,
    ];
    let names = ["first", "second", "third", "fourth"];
    for kind in kinds {
        for count in 0..=4 {
            let event = classify(&record(kind, &names[..count]), at());
            let expected = match kind {
                ChangeKind::RenameBoth if count >= 2 => {
                    Event::Move { from: "first".to_string(), to: "second".to_string(), time: at() }
                }
                ChangeKind::Create | ChangeKind::Write | ChangeKind::Metadata if count >= 1 => {
                    Event::Modify { path: "first".to_string(), time: at() }
                }
                ChangeKind::Remove if count >= 1 => {
                    Event::Delete { path: "first".to_string(), time: at() }
                }
                _ => Event::Nothing,
            };
            assert_eq!(event, expected);
        }
    }
}

fn seconds_of(time: Timestamp) -> i64 {
    chrono::NaiveDate::from_ymd_opt(time.year(), time.month() as u32, time.day() as u32)
        .unwrap()
        .and_hms_opt(time.hour() as u32, time.minute() as u32, time.second() as u32)
        .unwrap()
        .and_utc()
        .timestamp()
}

#[test]
fn from_stamps_the_event_with_the_clock() {
    let before = chrono::Utc::now().timestamp();
    let event = Event::from(record(ChangeKind::Write, &["/w/foo.txt"]));
    let after = chrono::Utc::now().timestamp();
    match event {
        Event::Modify { path, time } => {
            assert_eq!(path, "/w/foo.txt");
            assert!(before <= seconds_of(time));
            assert!(seconds_of(time) <= after);
        }
        other => panic!("expected a modify, got {:?}", other),
    }
}

#[test]
fn from_follows_the_rules() {
    assert!(matches!(
        Event::from(record(ChangeKind::RenameBoth, &["a", "b"])),
        Event::Move { from, to, .. } if from == "a" && to == "b"
    ));
    assert!(matches!(
        Event::from(record(ChangeKind::Remove, &["a"])),
        Event::Delete { path, .. } if path == "a"
    ));
    assert_eq!(Event::from(record(ChangeKind::RenameBoth, &["a"])), Event::Nothing);
    assert_eq!(Event::from(record(ChangeKind::Other, &["a"])), Event::Nothing);
}

use notify_redis::{decode, encode, format_event, ChangeKind, Event, RawChangeRecord, Timestamp};

fn at() -> Timestamp {
    Timestamp::new(2024, 5, 17, 8, 30, 0).unwrap()
}

fn modify(path: &str) -> Event {
    Event::Modify { path: path.to_string(), time: at() }
}

#[test]
fn modify_on_the_wire() {
    assert_eq!(
        encode(&modify("/srv/in/foo.txt")).unwrap(),
        r#"{"event":"modify","path":"/srv/in/foo.txt","time":"2024-05-17T08:30:00Z"}"#
    );
}

#[test]
fn move_on_the_wire() {
    let event = Event::Move {
        from: "/srv/in/foo.txt".to_string(),
        to: "/srv/in/bar.txt".to_string(),
        time: Timestamp::new(1999, 12, 31, 23, 59, 59).unwrap(),
    };
    assert_eq!(
        encode(&event).unwrap(),
        r#"{"event":"move","from":"/srv/in/foo.txt","to":"/srv/in/bar.txt","time":"1999-12-31T23:59:59Z"}"#
    );
}

#[test]
fn delete_on_the_wire() {
    let event = Event::Delete {
        path: "/srv/in/foo.txt".to_string(),
        time: Timestamp::new(12345, 1, 2, 3, 4, 5).unwrap(),
    };
    assert_eq!(
        encode(&event).unwrap(),
        r#"{"event":"delete","path":"/srv/in/foo.txt","time":"+12345-01-02T03:04:05Z"}"#
    );
}

#[test]
fn nothing_has_no_encoding() {
    assert_eq!(encode(&Event::Nothing), None);
}

#[test]
fn encoding_is_deterministic() {
    let event = modify("/srv/in/foo.txt");
    assert_eq!(encode(&event), encode(&event.clone()));
}

#[test]
fn paths_are_escaped() {
    assert_eq!(
        encode(&modify("a\"b\\c")).unwrap(),
        r#"{"event":"modify","path":"a\"b\\c","time":"2024-05-17T08:30:00Z"}"#
    );
    assert_eq!(
        encode(&modify("\u{8}\t\n\u{c}\r")).unwrap(),
        r#"{"event":"modify","path":"\b\t\n\f\r","time":"2024-05-17T08:30:00Z"}"#
    );
    assert_eq!(
        encode(&modify("\u{0}\u{1}\u{b}\u{e}\u{1f}")).unwrap(),
        r#"{"event":"modify","path":"\u0000\u0001\u000b\u000e\u001f","time":"2024-05-17T08:30:00Z"}"#
    );
}

#[test]
fn other_characters_stand_for_themselves() {
    assert_eq!(
        encode(&modify(" /\u{7f}\u{e9}\u{4e16}\u{1f600}")).unwrap(),
        "{\"event\":\"modify\",\"path\":\" /\u{7f}\u{e9}\u{4e16}\u{1f600}\",\"time\":\"2024-05-17T08:30:00Z\"}"
    );
}

#[test]
fn empty_path_is_encoded() {
    assert_eq!(
        encode(&modify("")).unwrap(),
        r#"{"event":"modify","path":"","time":"2024-05-17T08:30:00Z"}"#
    );
}

#[test]
fn decode_reads_each_kind() {
    assert_eq!(
        decode(r#"{"event":"modify","path":"/w/a","time":"2024-05-17T08:30:00Z"}"#),
        Some(modify("/w/a"))
    );
    assert_eq!(
        decode(r#"{"event":"move","from":"/w/a","to":"/w/b","time":"2024-05-17T08:30:00Z"}"#),
        Some(Event::Move { from: "/w/a".to_string(), to: "/w/b".to_string(), time: at() })
    );
    assert_eq!(
        decode(r#"{"event":"delete","path":"/w/a","time":"2024-05-17T08:30:00Z"}"#),
        Some(Event::Delete { path: "/w/a".to_string(), time: at() })
    );
}

#[test]
fn decode_undoes_escapes() {
    assert_eq!(
        decode(r#"{"event":"modify","path":"a\"b\\c\b\t\n\f\r\u0000\u001f","time":"2024-05-17T08:30:00Z"}"#),
        Some(modify("a\"b\\c\u{8}\t\n\u{c}\r\u{0}\u{1f}"))
    );
}

fn round_trips(event: Event) {
    let text = encode(&event).unwrap();
    assert_eq!(decode(&text), Some(event), "{}", text);
}

#[test]
fn decode_undoes_encode() {
    round_trips(modify("/srv/in/foo.txt"));
    round_trips(modify(""));
    round_trips(modify("\""));
    round_trips(modify("\\"));
    round_trips(modify("\\\""));
    round_trips(modify("\\u0041"));
    round_trips(modify("\",\"time\":\"2024-05-17T08:30:00Z\"}"));
    round_trips(Event::Delete { path: "x".to_string(), time: at() });
    round_trips(Event::Move { from: "a".to_string(), to: "b".to_string(), time: at() });
    round_trips(Event::Move { from: "\",\"to\":\"".to_string(), to: "".to_string(), time: at() });
    round_trips(Event::Move { from: "same".to_string(), to: "same".to_string(), time: at() });
}

#[test]
fn decode_undoes_encode_for_every_low_character() {
    for code in 0u32..=0x2ff {
        let c = char::from_u32(code).unwrap();
        let mut path = String::from("p");
        path.push(c);
        path.push('q');
        round_trips(modify(&path));
        round_trips(Event::Move { from: c.to_string(), to: path, time: at() });
    }
}

#[test]
fn decode_undoes_encode_for_many_paths_and_times() {
    let alphabet: Vec<char> =
        "ab/ .\"\\\n\t\r\u{0}\u{1f}\u{7f}\u{e9}\u{4e16}\u{1f600}u0{}:,".chars().collect();
    let mut state: u64 = 0x2545_f491_4f6c_dd1d;
    let mut next = |bound: u64| -> u64 {
        state ^= state << 13;
        state ^= state >> 7;
        state ^= state << 17;
        state % bound
    };
    for _ in 0..2000 {
        let mut paths = Vec::new();
        for _ in 0..2 {
            let len = next(12);
            let path: String =
                (0..len).map(|_| alphabet[next(alphabet.len() as u64) as usize]).collect();
            paths.push(path);
        }
        let year = next(30000) as i32 - 12000;
        let time = Timestamp::new(
            year,
            1 + next(12) as u8,
            1 + next(28) as u8,
            next(24) as u8,
            next(60) as u8,
            next(60) as u8,
        )
        .unwrap();
        let event = match next(3) {
            0 => Event::Modify { path: paths[0].clone(), time },
            1 => Event::Move { from: paths[0].clone(), to: paths[1].clone(), time },
            _ => Event::Delete { path: paths[0].clone(), time },
        };
        round_trips(event);
    }
}

#[test]
fn decode_takes_no_other_spelling() {
    let refused = [
        "",
        "{}",
        "null",
        r#"{"event":"none"}"#,
        r#"{"event":"modify"}"#,
        r#"{"event":"modify","path":"/w/a"}"#,
        r#"{"event":"modify","time":"2024-05-17T08:30:00Z","path":"/w/a"}"#,
        r#"{"path":"/w/a","event":"modify","time":"2024-05-17T08:30:00Z"}"#,
        r#"{"event":"modify", "path":"/w/a","time":"2024-05-17T08:30:00Z"}"#,
        r#" {"event":"modify","path":"/w/a","time":"2024-05-17T08:30:00Z"}"#,
        r#"{"event":"modify","path":"/w/a","time":"2024-05-17T08:30:00Z"} "#,
        r#"{"event":"modify","path":"/w/a","time":"2024-05-17T08:30:00Z"}}"#,
        r#"{"event":"modify","path":"/w/a","time":"2024-05-17T08:30:00Z""#,
        r#"{"event":"modify","path":"/w/a","time":"2024-05-17T08:30:00"}"#,
        r#"{"event":"modify","path":"/w/a","time":"2024-02-30T08:30:00Z"}"#,
        r#"{"event":"modify","path":"/w/a","time":"2024-05-17T08:30:00.5Z"}"#,
        r#"{"event":"modify","path":/w/a,"time":"2024-05-17T08:30:00Z"}"#,
        r#"{"event":"modify","path":"/w/a,"time":"2024-05-17T08:30:00Z"}"#,
        r#"{"event":"modify","path":"\/w\/a","time":"2024-05-17T08:30:00Z"}"#,
        r#"{"event":"modify","path":"\u0041","time":"2024-05-17T08:30:00Z"}"#,
        r#"{"event":"modify","path":"\u000A","time":"2024-05-17T08:30:00Z"}"#,
        r#"{"event":"modify","path":"\u000a","time":"2024-05-17T08:30:00Z"}"#,
        r#"{"event":"modify","path":"\u001","time":"2024-05-17T08:30:00Z"}"#,
        r#"{"event":"modify","path":"\x","time":"2024-05-17T08:30:00Z"}"#,
        "{\"event\":\"modify\",\"path\":\"a\nb\",\"time\":\"2024-05-17T08:30:00Z\"}",
        r#"{"event":"Modify","path":"/w/a","time":"2024-05-17T08:30:00Z"}"#,
        r#"{"event":"move","path":"/w/a","time":"2024-05-17T08:30:00Z"}"#,
        r#"{"event":"move","from":"/w/a","time":"2024-05-17T08:30:00Z"}"#,
        r#"{"event":"move","to":"/w/b","from":"/w/a","time":"2024-05-17T08:30:00Z"}"#,
        r#"{"event":"delete","from":"/w/a","to":"/w/b","time":"2024-05-17T08:30:00Z"}"#,
        r#"{"event":"modify","path":"/w/a","to":"/w/b","time":"2024-05-17T08:30:00Z"}"#,
    ];
    for text in refused {
        assert_eq!(decode(text), None, "{}", text);
    }
}

#[test]
fn what_decodes_encodes_to_the_same_text() {
    let texts = [
        r#"{"event":"modify","path":"/w/a","time":"2024-05-17T08:30:00Z"}"#,
        r#"{"event":"move","from":"\u0000","to":"\"","time":"-0001-01-01T00:00:00Z"}"#,
        r#"{"event":"delete","path":"","time":"+10000-12-31T23:59:59Z"}"#,
    ];
    for text in texts {
        let event = decode(text).unwrap();
        assert_eq!(encode(&event).unwrap(), text);
    }
}

#[test]
fn serde_json_reads_the_encoding() {
    let event = Event::Move {
        from: "/w/a \"quoted\"\n".to_string(),
        to: "/w/\u{4e16}\u{1}\\b".to_string(),
        time: at(),
    };
    let text = encode(&event).unwrap();
    let value: serde_json::Value = serde_json::from_str(&text).unwrap();
    let object = value.as_object().unwrap();
    assert_eq!(object.len(), 4);
    assert_eq!(object.get("event").unwrap().as_str(), Some("move"));
    assert_eq!(object.get("from").unwrap().as_str(), Some("/w/a \"quoted\"\n"));
    assert_eq!(object.get("to").unwrap().as_str(), Some("/w/\u{4e16}\u{1}\\b"));
    assert_eq!(object.get("time").unwrap().as_str(), Some("2024-05-17T08:30:00Z"));
}

#[test]
fn paths_are_written_as_serde_json_writes_strings() {
    let mut paths: Vec<String> = (0u32..=0x120)
        .map(|code| char::from_u32(code).unwrap().to_string())
        .collect();
    paths.push("/srv/in/foo.txt".to_string());
    paths.push("C:\\dir\\file \"x\"".to_string());
    paths.push("\u{2028}\u{2029}\u{feff}\u{10ffff}".to_string());
    for path in paths {
        let expected = format!(
            "{{\"event\":\"delete\",\"path\":{},\"time\":\"2024-05-17T08:30:00Z\"}}",
            serde_json::to_string(&path).unwrap()
        );
        assert_eq!(encode(&Event::Delete { path, time: at() }).unwrap(), expected);
    }
}

#[test]
fn format_event_encodes_what_the_record_stands_for() {
    let record = RawChangeRecord::new(
        ChangeKind::RenameBoth,
        vec!["/w/foo.txt".to_string(), "/w/bar.txt".to_string()],
    );
    let text = format_event(record).unwrap();
    assert!(matches!(
        decode(&text),
        Some(Event::Move { from, to, .. }) if from == "/w/foo.txt" && to == "/w/bar.txt"
    ));
    assert!(text.starts_with(r#"{"event":"move","from":"/w/foo.txt","to":"/w/bar.txt","time":""#));
}

#[test]
fn format_event_passes_over_what_stands_for_nothing() {
    assert_eq!(format_event(RawChangeRecord::new(ChangeKind::Other, vec!["a".to_string()])), None);
    assert_eq!(format_event(RawChangeRecord::new(ChangeKind::Write, vec![])), None);
    assert_eq!(
        format_event(RawChangeRecord::new(ChangeKind::RenameBoth, vec!["a".to_string()])),
        None
    );
}

//! The wire format: one JSON object per event, tagged by its kind, with the
//! time as RFC 3339 text.
//!
//! ```text
//! {"event":"modify","path":"/srv/in/a.txt","time":"2024-05-17T08:30:00Z"}
//! {"event":"move","from":"/srv/in/a.txt","to":"/srv/in/b.txt","time":"2024-05-17T08:30:01Z"}
//! {"event":"delete","path":"/srv/in/b.txt","time":"2024-05-17T08:30:02Z"}
//! ```

use crate::event::{classified, reportable, Event, EventView};
use crate::json::{
    lemma_quoted_at_text, lemma_text_at_quoted, push_quoted, quoted, quoted_at, read_quoted,
};
use crate::record::RawChangeRecord;
use crate::text::{chars_of, lemma_occurs_in_concat, literal_at, occurs_at};
use crate::timestamp::{lemma_text_at_time, lemma_time_at_text, time_at, CivilTime, Timestamp};
use vstd::prelude::*;
use vstd::string::*;

verus! {

/// How the encoding of a `Modify` starts, up to its path.
pub const MODIFY_HEAD: &'static str = "{\"event\":\"modify\",\"path\":";

/// How the encoding of a `Move` starts, up to the path moved from.
pub const MOVE_HEAD: &'static str = "{\"event\":\"move\",\"from\":";

/// What stands between the two paths of a `Move`.
pub const TO_KEY: &'static str = ",\"to\":";

/// How the encoding of a `Delete` starts, up to its path.
pub const DELETE_HEAD: &'static str = "{\"event\":\"delete\",\"path\":";

/// What stands between the last path and the time.
pub const TIME_KEY: &'static str = ",\"time\":\"";

/// How every encoding ends, behind the time.
pub const TAIL: &'static str = "\"}";

/// The end of every encoding: the time, and the brace that closes the
/// object.
pub open spec fn closing(time: CivilTime) -> Seq<char> {
    TIME_KEY@ + time.text() + TAIL@
}

/// The text that stands for an event on the wire; `Nothing` has none.
pub open spec fn encoding(event: EventView) -> Option<Seq<char>> {
    match event {
        EventView::Modify { path, time } => Some(MODIFY_HEAD@ + quoted(path) + closing(time)),
        EventView::Move { from, to, time } => Some(
            MOVE_HEAD@ + quoted(from) + TO_KEY@ + quoted(to) + closing(time),
        ),
        EventView::Delete { path, time } => Some(DELETE_HEAD@ + quoted(path) + closing(time)),
        EventView::Nothing => None,
    }
}

/// `text` is the encoding of `event`, an event with a valid time.
pub open spec fn encodes(event: EventView, text: Seq<char>) -> bool {
    event.timed() && encoding(event) == Some(text)
}

/// The event that `text` encodes, if it encodes one.
pub open spec fn decoding(text: Seq<char>) -> Option<EventView> {
    if exists|event: EventView| encodes(event, text) {
        Some(choose|event: EventView| encodes(event, text))
    } else {
        None
    }
}

/// The time read at index `i`, where the end of an encoding stands there
/// and the text ends with it.
pub open spec fn closing_at(s: Seq<char>, i: int) -> Option<CivilTime> {
    if occurs_at(s, i, TIME_KEY@) {
        match time_at(s, i + TIME_KEY@.len()) {
            Some((time, next)) => if occurs_at(s, next, TAIL@) && next + TAIL@.len() == s.len() {
                Some(time)
            } else {
                None
            },
            None => None,
        }
    } else {
        None
    }
}

/// The path read at index `i` and the time read behind it.
pub open spec fn path_and_time_at(s: Seq<char>, i: int) -> Option<(Seq<char>, CivilTime)> {
    match quoted_at(s, i) {
        Some((path, next)) => match closing_at(s, next) {
            Some(time) => Some((path, time)),
            None => None,
        },
        None => None,
    }
}

/// The event read from `s` part by part, as the reader goes.
pub open spec fn parsed(s: Seq<char>) -> Option<EventView> {
    if occurs_at(s, 0, MODIFY_HEAD@) {
        match path_and_time_at(s, MODIFY_HEAD@.len() as int) {
            Some((path, time)) => Some(EventView::Modify { path, time }),
            None => None,
        }
    } else if occurs_at(s, 0, MOVE_HEAD@) {
        match quoted_at(s, MOVE_HEAD@.len() as int) {
            Some((from, next)) => if occurs_at(s, next, TO_KEY@) {
                match path_and_time_at(s, next + TO_KEY@.len()) {
                    Some((to, time)) => Some(EventView::Move { from, to, time }),
                    None => None,
                }
            } else {
                None
            },
            None => None,
        }
    } else if occurs_at(s, 0, DELETE_HEAD@) {
        match path_and_time_at(s, DELETE_HEAD@.len() as int) {
            Some((path, time)) => Some(EventView::Delete { path, time }),
            None => None,
        }
    } else {
        None
    }
}

/// Appends the end of an encoding.
fn push_closing(out: &mut String, time: &Timestamp)
    ensures
        final(out)@ == old(out)@ + closing(time@),
{
    out.append(TIME_KEY);
    time.write_to(out);
    out.append(TAIL);
    assert(out@ =~= old(out)@ + closing(time@));
}

/// Encodes an event for the wire. Every event but `Nothing` has an
/// encoding, whatever its paths hold; `Nothing` has none.
pub fn encode(event: &Event) -> (text: Option<String>)
    ensures
        text is None <==> event is Nothing,
        text matches Some(t) ==> encoding(event@) == Some(t@),
{
    match event {
        Event::Modify { path, time } => {
            let mut out = String::from_str(MODIFY_HEAD);
            push_quoted(&mut out, path.as_str());
            push_closing(&mut out, time);
            Some(out)
        },
        Event::Move { from, to, time } => {
            let mut out = String::from_str(MOVE_HEAD);
            push_quoted(&mut out, from.as_str());
            out.append(TO_KEY);
            push_quoted(&mut out, to.as_str());
            push_closing(&mut out, time);
            Some(out)
        },
        Event::Delete { path, time } => {
            let mut out = String::from_str(DELETE_HEAD);
            push_quoted(&mut out, path.as_str());
            push_closing(&mut out, time);
            Some(out)
        },
        Event::Nothing => None,
    }
}

/// The text to publish for a record, taken now: classifies the record at
/// the time the clock gives and encodes the event. A record that stands
/// for no event gives `None`.
pub fn format_event(record: RawChangeRecord) -> (text: Option<String>)
    ensures
        text is Some <==> reportable(record@),
        text matches Some(t) ==> exists|now: CivilTime|
            now.valid() && #[trigger] encoding(classified(record@, now)) == Some(t@),
{
    let event = Event::from(record);
    encode(&event)
}

/// Reads the end of an encoding at index `i`.
fn read_closing(chars: &Vec<char>, i: usize) -> (read: Option<Timestamp>)
    ensures
        read matches Some(time) ==> closing_at(chars@, i as int) == Some(time@),
        read is None ==> closing_at(chars@, i as int) is None,
{
    let at = match literal_at(chars, i, TIME_KEY) {
        Some(at) => at,
        None => { return None; },
    };
    let (time, next) = match Timestamp::read_at(chars, at) {
        Some(found) => found,
        None => { return None; },
    };
    match literal_at(chars, next, TAIL) {
        Some(end) => if end == chars.len() {
            Some(time)
        } else {
            None
        },
        None => None,
    }
}

/// Reads a path at index `i` and the end of an encoding behind it.
fn read_path_and_time(chars: &Vec<char>, i: usize) -> (read: Option<(String, Timestamp)>)
    ensures
        read matches Some((path, time)) ==> path_and_time_at(chars@, i as int) == Some(
            (path@, time@),
        ),
        read is None ==> path_and_time_at(chars@, i as int) is None,
{
    let (path, next) = match read_quoted(chars, i) {
        Some(found) => found,
        None => { return None; },
    };
    match read_closing(chars, next) {
        Some(time) => Some((path, time)),
        None => None,
    }
}

/// Reads an event from the characters of a text.
fn parse(chars: &Vec<char>) -> (event: Option<Event>)
    ensures
        event matches Some(e) ==> parsed(chars@) == Some(e@),
        event is None ==> parsed(chars@) is None,
{
    if let Some(at) = literal_at(chars, 0, MODIFY_HEAD) {
        match read_path_and_time(chars, at) {
            Some((path, time)) => Some(Event::Modify { path, time }),
            None => None,
        }
    } else if let Some(at) = literal_at(chars, 0, MOVE_HEAD) {
        let (from, next) = match read_quoted(chars, at) {
            Some(found) => found,
            None => { return None; },
        };
        let at = match literal_at(chars, next, TO_KEY) {
            Some(at) => at,
            None => { return None; },
        };
        match read_path_and_time(chars, at) {
            Some((to, time)) => Some(Event::Move { from, to, time }),
            None => None,
        }
    } else if let Some(at) = literal_at(chars, 0, DELETE_HEAD) {
        match read_path_and_time(chars, at) {
            Some((path, time)) => Some(Event::Delete { path, time }),
            None => None,
        }
    } else {
        None
    }
}

/// Decodes a text from the wire: the event whose encoding it is. A text
/// that no event encodes gives `None`, also where it is JSON that spells
/// an event another way.
pub fn decode(text: &str) -> (event: Option<Event>)
    ensures
        event matches Some(e) ==> decoding(text@) == Some(e@),
        event is None ==> decoding(text@) is None,
{
    let chars = chars_of(text);
    let event = parse(&chars);
    proof {
        lemma_parsed_is_decoding(chars@);
    }
    event
}

/// The three heads differ: a text starts with one of them at most.
proof fn lemma_heads_differ(s: Seq<char>)
    ensures
        occurs_at(s, 0, MOVE_HEAD@) ==> !occurs_at(s, 0, MODIFY_HEAD@),
        occurs_at(s, 0, DELETE_HEAD@) ==> !occurs_at(s, 0, MODIFY_HEAD@) && !occurs_at(
            s,
            0,
            MOVE_HEAD@,
        ),
{
    reveal_strlit("{\"event\":\"modify\",\"path\":");
    reveal_strlit("{\"event\":\"move\",\"from\":");
    reveal_strlit("{\"event\":\"delete\",\"path\":");
    if occurs_at(s, 0, MOVE_HEAD@) {
        assert(s.subrange(0, MOVE_HEAD@.len() as int)[12] == 'v');
        if occurs_at(s, 0, MODIFY_HEAD@) {
            assert(s.subrange(0, MODIFY_HEAD@.len() as int)[12] == 'd');
        }
    }
    if occurs_at(s, 0, DELETE_HEAD@) {
        assert(s.subrange(0, DELETE_HEAD@.len() as int)[10] == 'd');
        if occurs_at(s, 0, MODIFY_HEAD@) {
            assert(s.subrange(0, MODIFY_HEAD@.len() as int)[10] == 'm');
        }
        if occurs_at(s, 0, MOVE_HEAD@) {
            assert(s.subrange(0, MOVE_HEAD@.len() as int)[10] == 'm');
        }
    }
}

/// Where a text ends with the end of an encoding, `closing_at` reads its
/// time there.
proof fn lemma_closing_at_text(before: Seq<char>, time: CivilTime)
    requires
        time.valid(),
    ensures
        closing_at(before + closing(time), before.len() as int) == Some(time),
{
    let s = before + closing(time);
    let i = before.len() as int;
    let stamp = time.text();
    assert(s =~= before + TIME_KEY@ + (stamp + TAIL@));
    lemma_occurs_in_concat(before, TIME_KEY@, stamp + TAIL@);
    assert(s =~= (before + TIME_KEY@) + stamp + TAIL@);
    lemma_occurs_in_concat(before + TIME_KEY@, stamp, TAIL@);
    lemma_time_at_text(s, i + TIME_KEY@.len(), time);
    assert(s =~= (before + TIME_KEY@ + stamp) + TAIL@ + Seq::<char>::empty());
    lemma_occurs_in_concat(before + TIME_KEY@ + stamp, TAIL@, Seq::<char>::empty());
}

/// Where `closing_at` reads a time, the time is valid and the text ends
/// with the end of an encoding.
proof fn lemma_text_at_closing(s: Seq<char>, i: int)
    requires
        closing_at(s, i) is Some,
    ensures
        closing_at(s, i)->0.valid(),
        0 <= i <= s.len(),
        s == s.subrange(0, i) + closing(closing_at(s, i)->0),
{
    let time = closing_at(s, i)->0;
    let at = i + TIME_KEY@.len();
    lemma_text_at_time(s, at);
    let next = at + time.text().len();
    assert(s.subrange(i, at) == TIME_KEY@);
    assert(s.subrange(at, next) == time.text());
    assert(s.subrange(next, s.len() as int) == TAIL@);
    lemma_parts(s, i, at, next);
}

/// A text is made of its four parts between three places.
proof fn lemma_parts(s: Seq<char>, i: int, j: int, k: int)
    requires
        0 <= i <= j <= k <= s.len(),
    ensures
        s == s.subrange(0, i) + (s.subrange(i, j) + s.subrange(j, k) + s.subrange(k, s.len() as int)),
{
    assert(s =~= s.subrange(0, i) + (s.subrange(i, j) + s.subrange(j, k) + s.subrange(
        k,
        s.len() as int,
    )));
}

/// Where a text ends with a path and the end of an encoding,
/// `path_and_time_at` reads both.
proof fn lemma_path_and_time_at_text(before: Seq<char>, path: Seq<char>, time: CivilTime)
    requires
        time.valid(),
    ensures
        path_and_time_at(before + quoted(path) + closing(time), before.len() as int) == Some(
            (path, time),
        ),
{
    let s = before + quoted(path) + closing(time);
    lemma_occurs_in_concat(before, quoted(path), closing(time));
    lemma_quoted_at_text(s, before.len() as int, path);
    lemma_closing_at_text(before + quoted(path), time);
}

/// Where `path_and_time_at` reads a path and a time, the time is valid and
/// the text ends with the path and the end of an encoding.
proof fn lemma_text_at_path_and_time(s: Seq<char>, i: int)
    requires
        path_and_time_at(s, i) is Some,
    ensures
        ({
            let (path, time) = path_and_time_at(s, i)->0;
            &&& time.valid()
            &&& 0 <= i <= s.len()
            &&& s == s.subrange(0, i) + quoted(path) + closing(time)
        }),
{
    let (path, time) = path_and_time_at(s, i)->0;
    let (_, next) = quoted_at(s, i)->0;
    lemma_text_at_quoted(s, i);
    lemma_text_at_closing(s, next);
    assert(s.subrange(0, next) =~= s.subrange(0, i) + s.subrange(i, next));
}

/// Where a text is made of `head`, a path and the end of an encoding, it
/// starts with `head`, and the path and the time are read behind it.
proof fn lemma_path_and_time_after_head(head: Seq<char>, path: Seq<char>, time: CivilTime)
    requires
        time.valid(),
    ensures
        occurs_at(head + quoted(path) + closing(time), 0, head),
        path_and_time_at(head + quoted(path) + closing(time), head.len() as int) == Some(
            (path, time),
        ),
{
    let s = head + quoted(path) + closing(time);
    assert(s.subrange(0, head.len() as int) =~= head);
    lemma_path_and_time_at_text(head, path, time);
}

/// The start of the encoding of a `Move` is read as it was written: the
/// head, the path moved from, and the key of the path moved to.
proof fn lemma_move_start(from: Seq<char>, rest: Seq<char>)
    ensures
        ({
            let s = MOVE_HEAD@ + quoted(from) + TO_KEY@ + rest;
            let next = MOVE_HEAD@.len() + quoted(from).len();
            &&& occurs_at(s, 0, MOVE_HEAD@)
            &&& quoted_at(s, MOVE_HEAD@.len() as int) == Some((from, next as int))
            &&& occurs_at(s, next as int, TO_KEY@)
        }),
{
    let s = MOVE_HEAD@ + quoted(from) + TO_KEY@ + rest;
    let at = MOVE_HEAD@.len() as int;
    let next = at + quoted(from).len();
    assert(s.subrange(0, at) =~= MOVE_HEAD@);
    assert(s.subrange(at, next) =~= quoted(from));
    assert(s.subrange(next, next + TO_KEY@.len()) =~= TO_KEY@);
    lemma_quoted_at_text(s, at, from);
}

/// The reader reads the encoding of a `Move` back.
proof fn lemma_parsed_move(from: Seq<char>, to: Seq<char>, time: CivilTime)
    requires
        time.valid(),
    ensures
        parsed(encoding(EventView::Move { from, to, time })->0) == Some(
            EventView::Move { from, to, time },
        ),
{
    let s = encoding(EventView::Move { from, to, time })->0;
    let rest = quoted(to) + closing(time);
    let front = MOVE_HEAD@ + quoted(from) + TO_KEY@;
    assert(s =~= front + rest);
    lemma_move_start(from, rest);
    lemma_heads_differ(s);
    lemma_path_and_time_at_text(front, to, time);
}

/// The reader reads every encoding back to its event.
pub(crate) proof fn lemma_parsed_encoding(event: EventView)
    requires
        event !is Nothing,
        event.timed(),
    ensures
        parsed(encoding(event)->0) == Some(event),
{
    match event {
        EventView::Modify { path, time } => {
            lemma_path_and_time_after_head(MODIFY_HEAD@, path, time);
        },
        EventView::Move { from, to, time } => {
            lemma_parsed_move(from, to, time);
        },
        EventView::Delete { path, time } => {
            lemma_path_and_time_after_head(DELETE_HEAD@, path, time);
            lemma_heads_differ(encoding(event)->0);
        },
        EventView::Nothing => {},
    }
}

/// Where a text starts with `head` and a path and a time are read behind
/// it, the text is made of the three.
proof fn lemma_text_at_head(s: Seq<char>, head: Seq<char>)
    requires
        occurs_at(s, 0, head),
        path_and_time_at(s, head.len() as int) is Some,
    ensures
        ({
            let (path, time) = path_and_time_at(s, head.len() as int)->0;
            &&& time.valid()
            &&& s == head + quoted(path) + closing(time)
        }),
{
    lemma_text_at_path_and_time(s, head.len() as int);
}

/// Where the reader reads a `Move`, the text is its encoding.
proof fn lemma_encoding_parsed_move(s: Seq<char>)
    requires
        occurs_at(s, 0, MOVE_HEAD@),
        !occurs_at(s, 0, MODIFY_HEAD@),
        parsed(s) is Some,
    ensures
        encodes(parsed(s)->0, s),
{
    let at = MOVE_HEAD@.len() as int;
    let (from, next) = quoted_at(s, at)->0;
    let then = next + TO_KEY@.len();
    let (to, time) = path_and_time_at(s, then)->0;
    lemma_text_at_quoted(s, at);
    lemma_text_at_path_and_time(s, then);
    let front = s.subrange(0, then);
    assert(front =~= s.subrange(0, at) + s.subrange(at, next) + s.subrange(next, then));
    assert(front == MOVE_HEAD@ + quoted(from) + TO_KEY@);
    assert(s == front + quoted(to) + closing(time));
    assert(parsed(s) == Some(EventView::Move { from, to, time }));
}

/// What the reader reads from a text is an event that the text encodes.
pub(crate) proof fn lemma_encoding_parsed(s: Seq<char>)
    requires
        parsed(s) is Some,
    ensures
        encodes(parsed(s)->0, s),
{
    if occurs_at(s, 0, MODIFY_HEAD@) {
        lemma_text_at_head(s, MODIFY_HEAD@);
    } else if occurs_at(s, 0, MOVE_HEAD@) {
        lemma_encoding_parsed_move(s);
    } else {
        lemma_text_at_head(s, DELETE_HEAD@);
    }
}

/// The reader decodes: what it reads from a text is the event that the
/// text encodes, and it reads nothing where the text encodes none.
pub(crate) proof fn lemma_parsed_is_decoding(s: Seq<char>)
    ensures
        parsed(s) == decoding(s),
{
    if exists|event: EventView| encodes(event, s) {
        let event = choose|event: EventView| encodes(event, s);
        lemma_parsed_encoding(event);
    } else if parsed(s) is Some {
        lemma_encoding_parsed(s);
    }
}

/// Decoding undoes encoding: the text of an event decodes to that event,
/// field for field.
pub proof fn lemma_decode_encode(event: EventView)
    requires
        event !is Nothing,
        event.timed(),
    ensures
        decoding(encoding(event)->0) == Some(event),
{
    lemma_parsed_encoding(event);
    lemma_parsed_is_decoding(encoding(event)->0);
}

/// No two events share an encoding.
pub proof fn lemma_encoding_is_injective(a: EventView, b: EventView)
    requires
        a.timed(),
        b.timed(),
        a !is Nothing,
        encoding(a) == encoding(b),
    ensures
        a == b,
{
    lemma_parsed_encoding(a);
    lemma_parsed_encoding(b);
}

/// A text that decodes is the encoding of what it decodes to: no other
/// spelling is taken.
pub proof fn lemma_encode_decode(text: Seq<char>)
    requires
        decoding(text) is Some,
    ensures
        encoding(decoding(text)->0) == Some(text),
        decoding(text)->0.timed(),
{
}

} // verus!

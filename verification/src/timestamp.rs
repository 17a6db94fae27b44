//! Whole-second UTC timestamps: the calendar fields, the clock that gives
//! them, and their RFC 3339 text.

use crate::text::{
    all_digits, chars_of, decimal, decimal_value, digit_char, digit_of, digit_run, digit_value,
    is_digit, lemma_char_range, lemma_decimal, lemma_decimal_of_value, lemma_digit_run,
    lemma_digit_run_digits, occurs_at, push_char, push_decimal, read_digit,
};
use chrono::{Datelike, Timelike};
use vstd::prelude::*;

verus! {

/// A point in time as a calendar reads it in UTC, to the second: the
/// mathematical model of a [`Timestamp`].
pub struct CivilTime {
    pub year: int,
    pub month: int,
    pub day: int,
    pub hour: int,
    pub minute: int,
    pub second: int,
}

/// Leap years of the proleptic Gregorian calendar; year 0 is 1 BC.
pub open spec fn is_leap_year(year: int) -> bool {
    year % 4 == 0 && (year % 100 != 0 || year % 400 == 0)
}

/// The number of days of a month of `year`, for `month` from 1 to 12.
pub open spec fn days_in_month(year: int, month: int) -> int {
    if month == 2 {
        if is_leap_year(year) {
            29
        } else {
            28
        }
    } else if month == 4 || month == 6 || month == 9 || month == 11 {
        30
    } else {
        31
    }
}

/// The digit in the tens' place of a number below 100.
pub open spec fn tens(n: int) -> char {
    digit_char(n / 10)
}

/// The digit in the units' place.
pub open spec fn units(n: int) -> char {
    digit_char(n % 10)
}

/// The year as RFC 3339 writes it, four digits, and outside 0 to 9999 as
/// ISO 8601 extends it: a sign, then at least four digits.
pub open spec fn year_text(year: int) -> Seq<char> {
    if 0 <= year <= 9999 {
        seq![tens(year / 100), units(year / 100), tens(year % 100), units(year % 100)]
    } else if year > 9999 {
        seq!['+'] + decimal(year as nat, 4)
    } else {
        seq!['-'] + decimal((-year) as nat, 4)
    }
}

impl CivilTime {
    /// A date of the calendar and a time of day, with a year that fits in
    /// 32 bits. There is no leap second.
    pub open spec fn valid(self) -> bool {
        &&& i32::MIN <= self.year <= i32::MAX
        &&& 1 <= self.month <= 12
        &&& 1 <= self.day <= days_in_month(self.year, self.month)
        &&& 0 <= self.hour <= 23
        &&& 0 <= self.minute <= 59
        &&& 0 <= self.second <= 59
    }

    /// What follows the year in the text: `-MM-DDTHH:MM:SSZ`.
    pub open spec fn clock_text(self) -> Seq<char> {
        seq![
            '-',
            tens(self.month),
            units(self.month),
            '-',
            tens(self.day),
            units(self.day),
            'T',
            tens(self.hour),
            units(self.hour),
            ':',
            tens(self.minute),
            units(self.minute),
            ':',
            tens(self.second),
            units(self.second),
            'Z',
        ]
    }

    /// The RFC 3339 text of this time, in UTC and without a fraction:
    /// `2024-05-17T08:30:00Z`.
    pub open spec fn text(self) -> Seq<char> {
        year_text(self.year) + self.clock_text()
    }
}

/// The year written at index `i` of `s`, with the index behind it.
#[verifier::opaque]
pub open spec fn year_at(s: Seq<char>, i: int) -> Option<(int, int)> {
    if i < 0 || i >= s.len() {
        None
    } else if s[i] == '+' || s[i] == '-' {
        let run = digit_run(s, i + 1);
        let value = decimal_value(s.subrange(i + 1, i + 1 + run));
        let whole = run >= 4 && (run == 4 || s[i + 1] != '0');
        if s[i] == '+' && whole && 9999 < value <= i32::MAX {
            Some((value as int, i + 1 + run))
        } else if s[i] == '-' && whole && 1 <= value <= -i32::MIN {
            Some((-value, i + 1 + run))
        } else {
            None
        }
    } else if i + 4 <= s.len() && is_digit(s[i]) && is_digit(s[i + 1]) && is_digit(s[i + 2])
        && is_digit(s[i + 3]) {
        Some(
            (
                digit_value(s[i]) * 1000 + digit_value(s[i + 1]) * 100 + digit_value(s[i + 2]) * 10
                    + digit_value(s[i + 3]),
                i + 4,
            ),
        )
    } else {
        None
    }
}

/// The number that the two characters at `i` write, when both are digits.
pub open spec fn pair_at(s: Seq<char>, i: int) -> int {
    digit_value(s[i]) * 10 + digit_value(s[i + 1])
}

/// The time written at index `i` of `s` after the year `year`: sixteen
/// characters, `-MM-DDTHH:MM:SSZ`, that make a valid time with that year.
#[verifier::opaque]
pub open spec fn clock_at(s: Seq<char>, i: int, year: int) -> Option<CivilTime> {
    let time = CivilTime {
        year,
        month: pair_at(s, i + 1),
        day: pair_at(s, i + 4),
        hour: pair_at(s, i + 7),
        minute: pair_at(s, i + 10),
        second: pair_at(s, i + 13),
    };
    if 0 <= i && i + 16 <= s.len() && s[i] == '-' && s[i + 3] == '-' && s[i + 6] == 'T' && s[i + 9]
        == ':' && s[i + 12] == ':' && s[i + 15] == 'Z' && is_digit(s[i + 1]) && is_digit(s[i + 2])
        && is_digit(s[i + 4]) && is_digit(s[i + 5]) && is_digit(s[i + 7]) && is_digit(s[i + 8])
        && is_digit(s[i + 10]) && is_digit(s[i + 11]) && is_digit(s[i + 13]) && is_digit(s[i + 14])
        && time.valid() {
        Some(time)
    } else {
        None
    }
}

/// The time written at index `i` of `s`, with the index behind it.
pub open spec fn time_at(s: Seq<char>, i: int) -> Option<(CivilTime, int)> {
    match year_at(s, i) {
        Some((year, next)) => match clock_at(s, next, year) {
            Some(time) => Some((time, next + 16)),
            None => None,
        },
        None => None,
    }
}

/// A digit's character writes that digit, and a digit character is the one
/// that writes its value.
pub(crate) proof fn lemma_digit_round_trip(c: char)
    requires
        is_digit(c),
    ensures
        digit_char(digit_value(c)) == c,
        0 <= digit_value(c) <= 9,
{
    lemma_char_range(c);
}

/// Where the text of a year stands at `i` and no digit follows it,
/// `year_at` reads that year there.
pub(crate) proof fn lemma_year_at_text(s: Seq<char>, i: int, year: int)
    requires
        i32::MIN <= year <= i32::MAX,
        occurs_at(s, i, year_text(year)),
        i + year_text(year).len() == s.len() || !is_digit(s[i + year_text(year).len()]),
    ensures
        year_at(s, i) == Some((year, i + year_text(year).len())),
{
    reveal(year_at);
    let text = year_text(year);
    assert forall|k: int| 0 <= k < text.len() implies s[i + k] == #[trigger] text[k] by {
        assert(s.subrange(i, i + text.len())[k] == s[i + k]);
    }
    if 0 <= year <= 9999 {
        assert(text.len() == 4);
        assert(s[i] == text[0] && s[i + 1] == text[1] && s[i + 2] == text[2] && s[i + 3]
            == text[3]);
    } else {
        let size: nat = if year > 9999 {
            year as nat
        } else {
            (-year) as nat
        };
        let digits = decimal(size, 4);
        lemma_decimal(size, 4);
        assert(text.len() == digits.len() + 1);
        assert(s[i] == text[0]);
        assert(s.subrange(i + 1, i + 1 + digits.len()) =~= digits) by {
            assert forall|k: int| 0 <= k < digits.len() implies s[i + 1 + k] == digits[k] by {
                assert(text[k + 1] == digits[k]);
            }
        }
        lemma_digit_run(s, i + 1, digits.len());
        assert(s[i + 1] == text[1] && text[1] == digits[0]);
    }
}

/// Where `year_at` reads a year, the text of that year stands.
pub(crate) proof fn lemma_text_at_year(s: Seq<char>, i: int)
    requires
        year_at(s, i) is Some,
    ensures
        ({
            let (year, next) = year_at(s, i)->0;
            &&& i32::MIN <= year <= i32::MAX
            &&& occurs_at(s, i, year_text(year))
            &&& next == i + year_text(year).len()
        }),
{
    reveal(year_at);
    let (year, next) = year_at(s, i)->0;
    if s[i] == '+' || s[i] == '-' {
        let run = digit_run(s, i + 1);
        let digits = s.subrange(i + 1, i + 1 + run);
        lemma_digit_run_digits(s, i + 1);
        lemma_decimal_of_value(digits, 4);
        assert(digits[0] == s[i + 1]);
        assert(s.subrange(i, next) =~= year_text(year));
    } else {
        lemma_digit_round_trip(s[i]);
        lemma_digit_round_trip(s[i + 1]);
        lemma_digit_round_trip(s[i + 2]);
        lemma_digit_round_trip(s[i + 3]);
        assert(year / 100 == digit_value(s[i]) * 10 + digit_value(s[i + 1]));
        assert(year % 100 == digit_value(s[i + 2]) * 10 + digit_value(s[i + 3]));
        assert(s.subrange(i, next) =~= year_text(year));
    }
}

/// Where the sixteen characters of a valid time stand at `i`, `clock_at`
/// reads that time there.
pub(crate) proof fn lemma_clock_at_text(s: Seq<char>, i: int, time: CivilTime)
    requires
        time.valid(),
        occurs_at(s, i, time.clock_text()),
    ensures
        clock_at(s, i, time.year) == Some(time),
{
    reveal(clock_at);
    let clock = time.clock_text();
    assert(clock.len() == 16);
    assert forall|k: int| 0 <= k < 16 implies s[i + k] == #[trigger] clock[k] by {
        assert(s.subrange(i, i + 16)[k] == s[i + k]);
    }
    assert(s[i] == clock[0]);
    assert(s[i + 1] == clock[1] && s[i + 2] == clock[2] && s[i + 3] == clock[3]);
    assert(s[i + 4] == clock[4] && s[i + 5] == clock[5] && s[i + 6] == clock[6]);
    assert(s[i + 7] == clock[7] && s[i + 8] == clock[8] && s[i + 9] == clock[9]);
    assert(s[i + 10] == clock[10] && s[i + 11] == clock[11] && s[i + 12] == clock[12]);
    assert(s[i + 13] == clock[13] && s[i + 14] == clock[14] && s[i + 15] == clock[15]);
    assert(pair_at(s, i + 1) == time.month);
    assert(pair_at(s, i + 4) == time.day);
    assert(pair_at(s, i + 7) == time.hour);
    assert(pair_at(s, i + 10) == time.minute);
    assert(pair_at(s, i + 13) == time.second);
}

/// Where the text of a valid time stands at `i`, `time_at` reads that time
/// there.
pub(crate) proof fn lemma_time_at_text(s: Seq<char>, i: int, time: CivilTime)
    requires
        time.valid(),
        occurs_at(s, i, time.text()),
    ensures
        time_at(s, i) == Some((time, i + time.text().len())),
{
    let year = year_text(time.year);
    let clock = time.clock_text();
    let text = time.text();
    let next = i + year.len();
    assert(clock.len() == 16);
    assert(s.subrange(next, next + 16) =~= clock) by {
        assert forall|k: int| 0 <= k < 16 implies s[next + k] == clock[k] by {
            assert(s.subrange(i, i + text.len())[year.len() + k] == s[next + k]);
            assert(text[year.len() + k] == clock[k]);
        }
    }
    assert(s.subrange(i, i + year.len()) =~= year) by {
        assert forall|k: int| 0 <= k < year.len() implies s[i + k] == year[k] by {
            assert(s.subrange(i, i + text.len())[k] == s[i + k]);
            assert(text[k] == year[k]);
        }
    }
    assert(s[next] == '-') by {
        assert(s.subrange(next, next + 16)[0] == s[next]);
    }
    lemma_year_at_text(s, i, time.year);
    lemma_clock_at_text(s, next, time);
}

/// Where `clock_at` reads a time, the time is valid and its sixteen
/// characters stand there.
pub(crate) proof fn lemma_text_at_clock(s: Seq<char>, i: int, year: int)
    requires
        clock_at(s, i, year) is Some,
    ensures
        clock_at(s, i, year)->0.valid(),
        clock_at(s, i, year)->0.year == year,
        s.subrange(i, i + 16) == clock_at(s, i, year)->0.clock_text(),
        i + 16 <= s.len(),
{
    reveal(clock_at);
    lemma_digit_round_trip(s[i + 1]);
    lemma_digit_round_trip(s[i + 2]);
    lemma_digit_round_trip(s[i + 4]);
    lemma_digit_round_trip(s[i + 5]);
    lemma_digit_round_trip(s[i + 7]);
    lemma_digit_round_trip(s[i + 8]);
    lemma_digit_round_trip(s[i + 10]);
    lemma_digit_round_trip(s[i + 11]);
    lemma_digit_round_trip(s[i + 13]);
    lemma_digit_round_trip(s[i + 14]);
    assert(s.subrange(i, i + 16) =~= clock_at(s, i, year)->0.clock_text());
}

/// Where `time_at` reads a time, that time is valid and its text stands
/// there.
pub(crate) proof fn lemma_text_at_time(s: Seq<char>, i: int)
    requires
        time_at(s, i) is Some,
    ensures
        ({
            let (time, next) = time_at(s, i)->0;
            &&& time.valid()
            &&& occurs_at(s, i, time.text())
            &&& next == i + time.text().len()
        }),
{
    let (time, end) = time_at(s, i)->0;
    let (year, next) = year_at(s, i)->0;
    lemma_text_at_year(s, i);
    lemma_text_at_clock(s, next, year);
    assert(s.subrange(i, end) =~= s.subrange(i, next) + s.subrange(next, end));
}

/// A UTC time to the second. Every value is a valid time: see
/// [`CivilTime::valid`].
#[derive(Clone, Copy, Debug, PartialEq, Eq)]
pub struct Timestamp {
    year: i32,
    month: u8,
    day: u8,
    hour: u8,
    minute: u8,
    second: u8,
}

impl View for Timestamp {
    type V = CivilTime;

    closed spec fn view(&self) -> CivilTime {
        CivilTime {
            year: self.year as int,
            month: self.month as int,
            day: self.day as int,
            hour: self.hour as int,
            minute: self.minute as int,
            second: self.second as int,
        }
    }
}

/// Reads the clock with `chrono::Utc::now` and takes the calendar fields
/// from chrono's `Datelike` and `Timelike`; what is below the second is
/// left out. Believed of chrono, not proved: the fields are in the ranges
/// that it documents, the date is one of the proleptic Gregorian calendar,
/// and a leap second shows in the nanoseconds, never as second 60. chrono
/// panics where the system clock stands before 1970.
#[verifier::external_body]
pub(crate) fn utc_now() -> (now: Timestamp)
    ensures
        now@.valid(),
{
    let now = chrono::Utc::now();
    Timestamp {
        year: now.year(),
        month: now.month() as u8,
        day: now.day() as u8,
        hour: now.hour() as u8,
        minute: now.minute() as u8,
        second: now.second() as u8,
    }
}

/// The size of `year` without its sign.
fn magnitude(year: i32) -> (size: u32)
    ensures
        size == if year >= 0 {
            year as int
        } else {
            -year
        },
{
    if year >= 0 {
        year as u32
    } else {
        (0 - year as i64) as u32
    }
}

/// Whether `year` is a leap year.
pub fn leap_year(year: i32) -> (leap: bool)
    ensures
        leap == is_leap_year(year as int),
{
    let size: u32 = magnitude(year);
    assert(size % 4 == 0 <==> year as int % 4 == 0);
    assert(size % 100 == 0 <==> year as int % 100 == 0);
    assert(size % 400 == 0 <==> year as int % 400 == 0);
    size % 4 == 0 && (size % 100 != 0 || size % 400 == 0)
}

/// The number of days of a month of `year`.
pub fn month_length(year: i32, month: u8) -> (days: u8)
    ensures
        days == days_in_month(year as int, month as int),
{
    if month == 2 {
        if leap_year(year) {
            29
        } else {
            28
        }
    } else if month == 4 || month == 6 || month == 9 || month == 11 {
        30
    } else {
        31
    }
}

impl Timestamp {
    /// Holds of every timestamp: its fields make a valid time.
    #[verifier::type_invariant]
    pub open spec fn well_formed(self) -> bool {
        self@.valid()
    }

    /// The time with these fields, where they make a valid time.
    pub fn new(year: i32, month: u8, day: u8, hour: u8, minute: u8, second: u8) -> (made: Option<
        Timestamp,
    >)
        ensures
            made is Some <==> (CivilTime {
                year: year as int,
                month: month as int,
                day: day as int,
                hour: hour as int,
                minute: minute as int,
                second: second as int,
            }).valid(),
            made matches Some(t) ==> t@ == (CivilTime {
                year: year as int,
                month: month as int,
                day: day as int,
                hour: hour as int,
                minute: minute as int,
                second: second as int,
            }),
    {
        if 1 <= month && month <= 12 && 1 <= day && day <= month_length(year, month) && hour <= 23
            && minute <= 59 && second <= 59 {
            Some(Timestamp { year, month, day, hour, minute, second })
        } else {
            None
        }
    }

    pub fn year(&self) -> (year: i32)
        ensures
            year == self@.year,
    {
        self.year
    }

    pub fn month(&self) -> (month: u8)
        ensures
            month == self@.month,
    {
        self.month
    }

    pub fn day(&self) -> (day: u8)
        ensures
            day == self@.day,
    {
        self.day
    }

    pub fn hour(&self) -> (hour: u8)
        ensures
            hour == self@.hour,
    {
        self.hour
    }

    pub fn minute(&self) -> (minute: u8)
        ensures
            minute == self@.minute,
    {
        self.minute
    }

    pub fn second(&self) -> (second: u8)
        ensures
            second == self@.second,
    {
        self.second
    }

    /// The RFC 3339 text of this time.
    pub fn to_rfc3339(&self) -> (text: String)
        ensures
            text@ == self@.text(),
    {
        let mut text = String::new();
        self.write_to(&mut text);
        assert(Seq::<char>::empty() + self@.text() =~= self@.text());
        text
    }

    /// The time that `text` is the RFC 3339 text of, as [`CivilTime::text`]
    /// writes it; `None` where it is the text of no valid time.
    pub fn parse_rfc3339(text: &str) -> (time: Option<Timestamp>)
        ensures
            time matches Some(t) ==> t@.text() == text@,
            time is None ==> forall|any: CivilTime| any.valid() ==> #[trigger] any.text() != text@,
    {
        let chars = chars_of(text);
        match Timestamp::read_at(&chars, 0) {
            Some((time, next)) => {
                proof {
                    lemma_text_at_time(chars@, 0);
                }
                if next == chars.len() {
                    assert(chars@.subrange(0, next as int) =~= chars@);
                    Some(time)
                } else {
                    assert forall|any: CivilTime| any.valid() implies #[trigger] any.text()
                        != text@ by {
                        if any.text() == text@ {
                            assert(chars@.subrange(0, chars@.len() as int) =~= chars@);
                            lemma_time_at_text(chars@, 0, any);
                        }
                    }
                    None
                }
            },
            None => {
                assert forall|any: CivilTime| any.valid() implies #[trigger] any.text()
                    != text@ by {
                    if any.text() == text@ {
                        assert(chars@.subrange(0, chars@.len() as int) =~= chars@);
                        lemma_time_at_text(chars@, 0, any);
                    }
                }
                None
            },
        }
    }

    /// Appends the RFC 3339 text of this time to `out`.
    pub(crate) fn write_to(&self, out: &mut String)
        ensures
            final(out)@ == old(out)@ + self@.text(),
    {
        self.write_year(out);
        self.write_clock(out);
        assert(out@ =~= old(out)@ + self@.text());
    }

    fn write_year(&self, out: &mut String)
        ensures
            final(out)@ == old(out)@ + year_text(self@.year),
    {
        if 0 <= self.year && self.year <= 9999 {
            let high: u8 = (self.year / 100) as u8;
            let low: u8 = (self.year % 100) as u8;
            push_pair(out, high);
            push_pair(out, low);
        } else if self.year > 9999 {
            push_char(out, '+');
            push_decimal(out, self.year as u32, 4);
        } else {
            push_char(out, '-');
            push_decimal(out, magnitude(self.year), 4);
        }
        assert(out@ =~= old(out)@ + year_text(self@.year));
    }

    fn write_clock(&self, out: &mut String)
        ensures
            final(out)@ == old(out)@ + self@.clock_text(),
    {
        proof {
            use_type_invariant(self);
        }
        push_char(out, '-');
        push_pair(out, self.month);
        push_char(out, '-');
        push_pair(out, self.day);
        push_char(out, 'T');
        push_pair(out, self.hour);
        push_char(out, ':');
        push_pair(out, self.minute);
        push_char(out, ':');
        push_pair(out, self.second);
        push_char(out, 'Z');
        assert(out@ =~= old(out)@ + self@.clock_text());
    }

    /// Reads the time written at index `i` of `chars`, and gives it with
    /// the index behind it.
    pub(crate) fn read_at(chars: &Vec<char>, i: usize) -> (read: Option<(Timestamp, usize)>)
        ensures
            read matches Some((t, next)) ==> time_at(chars@, i as int) == Some((t@, next as int)),
            read is None ==> time_at(chars@, i as int) is None,
    {
        proof {
            reveal(clock_at);
        }
        let (year, next) = match read_year(chars, i) {
            Some(found) => found,
            None => { return None; },
        };
        if chars.len() - next < 16 {
            return None;
        }
        let punctuated = chars[next] == '-' && chars[next + 3] == '-' && chars[next + 6] == 'T'
            && chars[next + 9] == ':' && chars[next + 12] == ':' && chars[next + 15] == 'Z';
        if !punctuated {
            return None;
        }
        let month = read_pair(chars, next + 1);
        let day = read_pair(chars, next + 4);
        let hour = read_pair(chars, next + 7);
        let minute = read_pair(chars, next + 10);
        let second = read_pair(chars, next + 13);
        match (month, day, hour, minute, second) {
            (Some(month), Some(day), Some(hour), Some(minute), Some(second)) => {
                match Timestamp::new(year, month, day, hour, minute, second) {
                    Some(t) => Some((t, next + 16)),
                    None => None,
                }
            },
            _ => None,
        }
    }
}

/// Appends the two digits of `n`, tens first.
fn push_pair(out: &mut String, n: u8)
    requires
        n < 100,
    ensures
        final(out)@ == old(out)@.push(tens(n as int)).push(units(n as int)),
{
    push_char(out, digit_of(n / 10));
    push_char(out, digit_of(n % 10));
}

/// The number that the two characters at `i` write, if both are digits.
fn read_pair(chars: &Vec<char>, i: usize) -> (r: Option<u8>)
    requires
        i + 2 <= chars.len(),
    ensures
        r is Some <==> is_digit(chars@[i as int]) && is_digit(chars@[i + 1]),
        r matches Some(n) ==> n == pair_at(chars@, i as int),
{
    match (read_digit(chars, i), read_digit(chars, i + 1)) {
        (Some(high), Some(low)) => Some(high * 10 + low),
        _ => None,
    }
}

/// Reads the year written at index `i`, and gives it with the index behind
/// it.
fn read_year(chars: &Vec<char>, i: usize) -> (read: Option<(i32, usize)>)
    ensures
        read matches Some((year, next)) ==> year_at(chars@, i as int) == Some(
            (year as int, next as int),
        ) && next <= chars.len(),
        read is None ==> year_at(chars@, i as int) is None,
{
    proof {
        reveal(year_at);
    }
    if i >= chars.len() {
        return None;
    }
    let sign = chars[i];
    if sign == '+' || sign == '-' {
        let start: usize = i + 1;
        let limit: u64 = 2147483648;
        let mut run: usize = 0;
        let mut value: u64 = 0;
        let mut digit = read_digit(chars, start);
        while digit.is_some()
            invariant
                start + run <= chars.len(),
                start == i + 1,
                limit == 2147483648,
                all_digits(chars@.subrange(start as int, start + run)),
                digit is Some <==> start + run < chars.len() && is_digit(chars@[start + run]),
                digit matches Some(d) ==> d == digit_value(chars@[start + run]) && d < 10,
                value <= limit * 10 + 9,
                value <= limit ==> value == decimal_value(
                    chars@.subrange(start as int, start + run),
                ),
                value > limit ==> decimal_value(chars@.subrange(start as int, start + run))
                    > limit,
            decreases chars.len() - run,
        {
            let d: u8 = digit.unwrap();
            let ghost before = chars@.subrange(start as int, start + run);
            let ghost after = chars@.subrange(start as int, start + run + 1);
            assert(after.drop_last() =~= before);
            assert(after.last() == chars@[start + run]);
            assert(decimal_value(after) == decimal_value(before) * 10 + d);
            assert(all_digits(after)) by {
                assert forall|j: int| 0 <= j < after.len() implies is_digit(#[trigger] after[j]) by {
                    if j < run {
                        assert(before[j] == after[j]);
                    }
                }
            }
            if value <= limit {
                value = value * 10 + d as u64;
            }
            run += 1;
            digit = read_digit(chars, start + run);
        }
        proof {
            lemma_digit_run(chars@, start as int, run as nat);
        }
        if run < 4 || (run > 4 && chars[start] == '0') {
            return None;
        }
        if sign == '+' {
            if 9999 < value && value <= 2147483647 {
                Some((value as i32, start + run))
            } else {
                None
            }
        } else {
            if 1 <= value && value <= limit {
                Some(((0 - value as i64) as i32, start + run))
            } else {
                None
            }
        }
    } else {
        if chars.len() - i < 4 {
            return None;
        }
        match (
            read_digit(chars, i),
            read_digit(chars, i + 1),
            read_digit(chars, i + 2),
            read_digit(chars, i + 3),
        ) {
            (Some(a), Some(b), Some(c), Some(d)) => {
                let year: i32 = a as i32 * 1000 + b as i32 * 100 + c as i32 * 10 + d as i32;
                Some((year, i + 4))
            },
            _ => None,
        }
    }
}

} // verus!

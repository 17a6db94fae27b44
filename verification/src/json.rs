//! JSON string literals: how a path is written between quotes, and how it is
//! read back.
//!
//! A quotation mark, a backslash and the control characters below U+0020
//! are escaped; every other character stands for itself. Backspace, tab,
//! line feed, form feed and carriage return take the two-character escapes
//! `\b \t \n \f \r`, the other control characters `\u00` and two lower-case
//! hexadecimal digits. The reader takes this form and no other.

use crate::text::{chars_of, code_of, lemma_char_range, occurs_at, push_char};
use vstd::prelude::*;

verus! {

/// The hexadecimal digit for `v`, in lower case, for `v` from 0 to 15.
pub open spec fn hex_char(v: int) -> char {
    if v < 10 {
        (v + 48) as char
    } else {
        (v + 87) as char
    }
}

/// Whether `c` is one of `0` to `9` or `a` to `f`.
pub open spec fn is_hex(c: char) -> bool {
    48 <= c as int <= 57 || 97 <= c as int <= 102
}

/// The number that a hexadecimal digit writes.
pub open spec fn hex_value(c: char) -> int {
    if c as int <= 57 {
        c as int - 48
    } else {
        c as int - 87
    }
}

/// The control characters that have an escape of two characters.
pub open spec fn has_short_escape(code: int) -> bool {
    code == 8 || code == 9 || code == 10 || code == 12 || code == 13
}

/// How one character is written inside a string literal.
pub open spec fn escape(c: char) -> Seq<char> {
    if c == '"' {
        seq!['\\', '"']
    } else if c == '\\' {
        seq!['\\', '\\']
    } else if c as int == 8 {
        seq!['\\', 'b']
    } else if c as int == 9 {
        seq!['\\', 't']
    } else if c as int == 10 {
        seq!['\\', 'n']
    } else if c as int == 12 {
        seq!['\\', 'f']
    } else if c as int == 13 {
        seq!['\\', 'r']
    } else if (c as int) < 32 {
        seq!['\\', 'u', '0', '0', hex_char(c as int / 16), hex_char(c as int % 16)]
    } else {
        seq![c]
    }
}

/// The characters of `s`, each written as [`escape`] writes it.
pub open spec fn escaped(s: Seq<char>) -> Seq<char>
    decreases s.len(),
{
    if s.len() == 0 {
        Seq::empty()
    } else {
        escape(s.first()) + escaped(s.drop_first())
    }
}

/// `s` as a string literal: escaped, between quotation marks.
pub open spec fn quoted(s: Seq<char>) -> Seq<char> {
    seq!['"'] + escaped(s) + seq!['"']
}

/// The character written at index `i` inside a literal, with the number of
/// characters that write it.
pub open spec fn unescape_at(s: Seq<char>, i: int) -> Option<(char, int)> {
    if i < 0 || i >= s.len() {
        None
    } else if s[i] == '\\' {
        if i + 1 >= s.len() {
            None
        } else if s[i + 1] == '"' {
            Some(('"', 2))
        } else if s[i + 1] == '\\' {
            Some(('\\', 2))
        } else if s[i + 1] == 'b' {
            Some((8 as char, 2))
        } else if s[i + 1] == 't' {
            Some((9 as char, 2))
        } else if s[i + 1] == 'n' {
            Some((10 as char, 2))
        } else if s[i + 1] == 'f' {
            Some((12 as char, 2))
        } else if s[i + 1] == 'r' {
            Some((13 as char, 2))
        } else if s[i + 1] == 'u' && i + 6 <= s.len() && s[i + 2] == '0' && s[i + 3] == '0' && (s[i
            + 4] == '0' || s[i + 4] == '1') && is_hex(s[i + 5]) && !has_short_escape(
            hex_value(s[i + 4]) * 16 + hex_value(s[i + 5]),
        ) {
            Some(((hex_value(s[i + 4]) * 16 + hex_value(s[i + 5])) as char, 6))
        } else {
            None
        }
    } else if s[i] == '"' || (s[i] as int) < 32 {
        None
    } else {
        Some((s[i], 1))
    }
}

/// The string written from index `i` on, up to the quotation mark that
/// closes it, with the index behind that mark.
pub open spec fn string_at(s: Seq<char>, i: int) -> Option<(Seq<char>, int)>
    decreases s.len() - i,
{
    if i < 0 || i >= s.len() {
        None
    } else if s[i] == '"' {
        Some((Seq::empty(), i + 1))
    } else {
        match unescape_at(s, i) {
            Some((c, n)) => after(seq![c], string_at(s, i + n)),
            None => None,
        }
    }
}

/// `read`, with `front` put before what was read.
pub open spec fn after(front: Seq<char>, read: Option<(Seq<char>, int)>) -> Option<
    (Seq<char>, int),
> {
    match read {
        Some((rest, end)) => Some((front + rest, end)),
        None => None,
    }
}

/// The string literal written at index `i`, with the index behind it.
pub open spec fn quoted_at(s: Seq<char>, i: int) -> Option<(Seq<char>, int)> {
    if 0 <= i < s.len() && s[i] == '"' {
        string_at(s, i + 1)
    } else {
        None
    }
}

fn hex_of(v: u8) -> (c: char)
    requires
        v < 16,
    ensures
        c == hex_char(v as int),
{
    if v < 10 {
        (48u8 + v) as char
    } else {
        (87u8 + v) as char
    }
}

/// Appends `c` as it is written inside a string literal.
fn push_escape(out: &mut String, c: char)
    ensures
        final(out)@ == old(out)@ + escape(c),
{
    let code: u32 = code_of(c);
    if c == '"' {
        push_char(out, '\\');
        push_char(out, '"');
    } else if c == '\\' {
        push_char(out, '\\');
        push_char(out, '\\');
    } else if code == 8 {
        push_char(out, '\\');
        push_char(out, 'b');
    } else if code == 9 {
        push_char(out, '\\');
        push_char(out, 't');
    } else if code == 10 {
        push_char(out, '\\');
        push_char(out, 'n');
    } else if code == 12 {
        push_char(out, '\\');
        push_char(out, 'f');
    } else if code == 13 {
        push_char(out, '\\');
        push_char(out, 'r');
    } else if code < 32 {
        push_char(out, '\\');
        push_char(out, 'u');
        push_char(out, '0');
        push_char(out, '0');
        push_char(out, hex_of((code / 16) as u8));
        push_char(out, hex_of((code % 16) as u8));
    } else {
        push_char(out, c);
    }
    assert(out@ =~= old(out)@ + escape(c));
}

/// Appends `s` as a string literal.
pub(crate) fn push_quoted(out: &mut String, s: &str)
    ensures
        final(out)@ == old(out)@ + quoted(s@),
{
    let chars = chars_of(s);
    push_char(out, '"');
    let mut i: usize = 0;
    while i < chars.len()
        invariant
            i <= chars.len(),
            out@ == old(out)@.push('"') + escaped(chars@.take(i as int)),
        decreases chars.len() - i,
    {
        push_escape(out, chars[i]);
        proof {
            lemma_escaped_push(chars@.take(i as int), chars@[i as int]);
            assert(chars@.take(i + 1) =~= chars@.take(i as int).push(chars@[i as int]));
        }
        i += 1;
    }
    push_char(out, '"');
    assert(chars@.take(chars.len() as int) =~= chars@);
    assert(out@ =~= old(out)@ + quoted(s@));
}

/// Reads the character written at index `i` inside a literal, and gives it
/// with the number of characters that write it.
fn read_escape(chars: &Vec<char>, i: usize) -> (read: Option<(char, usize)>)
    ensures
        read matches Some((c, n)) ==> unescape_at(chars@, i as int) == Some((c, n as int)) && 1
            <= n && i + n <= chars.len(),
        read is None ==> unescape_at(chars@, i as int) is None,
{
    if i >= chars.len() {
        return None;
    }
    let first = chars[i];
    let code: u32 = code_of(first);
    if first == '\\' {
        if chars.len() - i < 2 {
            return None;
        }
        let mark = chars[i + 1];
        if mark == '"' {
            Some(('"', 2))
        } else if mark == '\\' {
            Some(('\\', 2))
        } else if mark == 'b' {
            Some((8u8 as char, 2))
        } else if mark == 't' {
            Some((9u8 as char, 2))
        } else if mark == 'n' {
            Some((10u8 as char, 2))
        } else if mark == 'f' {
            Some((12u8 as char, 2))
        } else if mark == 'r' {
            Some((13u8 as char, 2))
        } else if mark == 'u' {
            if chars.len() - i < 6 || chars[i + 2] != '0' || chars[i + 3] != '0' {
                return None;
            }
            let high: u32 = code_of(chars[i + 4]);
            let low: u32 = code_of(chars[i + 5]);
            if high != 48 && high != 49 {
                return None;
            }
            let low_value: u32 = if 48 <= low && low <= 57 {
                low - 48
            } else if 97 <= low && low <= 102 {
                low - 87
            } else {
                return None;
            };
            let value: u32 = (high - 48) * 16 + low_value;
            if value == 8 || value == 9 || value == 10 || value == 12 || value == 13 {
                return None;
            }
            Some(((value as u8) as char, 6))
        } else {
            None
        }
    } else if first == '"' || code < 32 {
        None
    } else {
        Some((first, 1))
    }
}

/// Reads the string literal written at index `i` of `chars`, and gives the
/// string with the index behind the literal.
pub(crate) fn read_quoted(chars: &Vec<char>, i: usize) -> (read: Option<(String, usize)>)
    ensures
        read matches Some((text, next)) ==> quoted_at(chars@, i as int) == Some(
            (text@, next as int),
        ) && next <= chars.len(),
        read is None ==> quoted_at(chars@, i as int) is None,
{
    if i >= chars.len() || chars[i] != '"' {
        return None;
    }
    let mut text = String::new();
    let mut at: usize = i + 1;
    loop
        invariant
            i + 1 <= at <= chars.len(),
            chars@[i as int] == '"',
            string_at(chars@, i + 1) == after(text@, string_at(chars@, at as int)),
        decreases chars.len() - at,
    {
        if at >= chars.len() {
            return None;
        }
        if chars[at] == '"' {
            assert(text@ + Seq::<char>::empty() =~= text@);
            return Some((text, at + 1));
        }
        match read_escape(chars, at) {
            None => {
                return None;
            },
            Some((c, n)) => {
                proof {
                    let rest = string_at(chars@, at + n);
                    if rest is Some {
                        let (tail, end) = rest->0;
                        assert(text@ + (seq![c] + tail) =~= text@.push(c) + tail);
                    }
                }
                push_char(&mut text, c);
                at += n;
            },
        }
    }
}

/// Escaping goes character by character: one more character at the end
/// adds its escape at the end.
pub(crate) proof fn lemma_escaped_push(s: Seq<char>, c: char)
    ensures
        escaped(s.push(c)) == escaped(s) + escape(c),
    decreases s.len(),
{
    if s.len() == 0 {
        assert(s.push(c).drop_first() =~= Seq::<char>::empty());
        assert(escaped(Seq::<char>::empty()) =~= Seq::<char>::empty());
        assert(escaped(s.push(c)) =~= escape(c) + Seq::<char>::empty());
        assert(escaped(s.push(c)) =~= escaped(s) + escape(c));
    } else {
        lemma_escaped_push(s.drop_first(), c);
        assert(s.push(c).drop_first() =~= s.drop_first().push(c));
        assert(escaped(s.push(c)) =~= escaped(s) + escape(c));
    }
}

/// Where the escape of `c` stands at `i`, `unescape_at` reads `c` there,
/// and it is no closing quotation mark.
pub(crate) proof fn lemma_unescape_at_escape(s: Seq<char>, i: int, c: char)
    requires
        occurs_at(s, i, escape(c)),
    ensures
        unescape_at(s, i) == Some((c, escape(c).len() as int)),
        s[i] != '"',
{
    lemma_char_range(c);
    let text = escape(c);
    assert forall|k: int| 0 <= k < text.len() implies s[i + k] == #[trigger] text[k] by {
        assert(s.subrange(i, i + text.len())[k] == s[i + k]);
    }
    assert(s[i] == text[0]);
    if text.len() >= 2 {
        assert(s[i + 1] == text[1]);
    }
    if text.len() == 6 {
        assert(s[i + 2] == text[2] && s[i + 3] == text[3] && s[i + 4] == text[4] && s[i + 5]
            == text[5]);
        assert(hex_value(s[i + 4]) == c as int / 16);
        assert(hex_value(s[i + 5]) == c as int % 16);
    }
}

/// Where `unescape_at` reads a character, the escape of that character
/// stands.
pub(crate) proof fn lemma_escape_at_unescape(s: Seq<char>, i: int)
    requires
        unescape_at(s, i) is Some,
        s[i] != '"',
    ensures
        ({
            let (c, n) = unescape_at(s, i)->0;
            &&& n == escape(c).len()
            &&& occurs_at(s, i, escape(c))
        }),
{
    let (c, n) = unescape_at(s, i)->0;
    lemma_char_range(s[i]);
    if s[i] == '\\' && s[i + 1] == 'u' {
        lemma_char_range(s[i + 4]);
        lemma_char_range(s[i + 5]);
        let code = hex_value(s[i + 4]) * 16 + hex_value(s[i + 5]);
        assert(0 <= code < 32);
        assert(c as int == code);
        assert(code / 16 == hex_value(s[i + 4]) && code % 16 == hex_value(s[i + 5]));
        assert(hex_char(hex_value(s[i + 4])) == s[i + 4]);
        assert(hex_char(hex_value(s[i + 5])) == s[i + 5]);
    }
    assert(s.subrange(i, i + n) =~= escape(c));
}

/// Where the escaped form of `text` stands at `i` with a quotation mark
/// behind it, `string_at` reads `text` there.
pub(crate) proof fn lemma_string_at_escaped(s: Seq<char>, i: int, text: Seq<char>)
    requires
        occurs_at(s, i, escaped(text).push('"')),
    ensures
        string_at(s, i) == Some((text, i + escaped(text).len() + 1)),
    decreases text.len(),
{
    let written = escaped(text).push('"');
    assert forall|k: int| 0 <= k < written.len() implies s[i + k] == #[trigger] written[k] by {
        assert(s.subrange(i, i + written.len())[k] == s[i + k]);
    }
    if text.len() == 0 {
        assert(s[i] == written[0]);
    } else {
        let c = text.first();
        let rest = text.drop_first();
        let n = escape(c).len() as int;
        assert(s.subrange(i, i + n) =~= escape(c)) by {
            assert forall|k: int| 0 <= k < n implies s[i + k] == escape(c)[k] by {
                assert(written[k] == escape(c)[k]);
            }
        }
        lemma_unescape_at_escape(s, i, c);
        assert(s.subrange(i + n, i + n + escaped(rest).len() + 1) =~= escaped(rest).push('"')) by {
            assert forall|k: int| 0 <= k < escaped(rest).len() + 1 implies s[i + n + k]
                == escaped(rest).push('"')[k] by {
                assert(written[n + k] == escaped(rest).push('"')[k]);
            }
        }
        lemma_string_at_escaped(s, i + n, rest);
        assert(seq![c] + rest =~= text);
    }
}

/// Where `string_at` reads a string, its escaped form stands with a
/// quotation mark behind it.
pub(crate) proof fn lemma_escaped_at_string(s: Seq<char>, i: int)
    requires
        string_at(s, i) is Some,
    ensures
        ({
            let (text, end) = string_at(s, i)->0;
            &&& end == i + escaped(text).len() + 1
            &&& occurs_at(s, i, escaped(text).push('"'))
        }),
    decreases s.len() - i,
{
    let (text, end) = string_at(s, i)->0;
    if s[i] == '"' {
        assert(s.subrange(i, i + 1) =~= escaped(text).push('"'));
    } else {
        let (c, n) = unescape_at(s, i)->0;
        let (rest, stop) = string_at(s, i + n)->0;
        lemma_escape_at_unescape(s, i);
        lemma_escaped_at_string(s, i + n);
        assert(text == seq![c] + rest);
        assert(text.first() == c);
        assert(text.drop_first() =~= rest);
        assert(escaped(text) == escape(c) + escaped(rest));
        assert(s.subrange(i, end) =~= s.subrange(i, i + n) + s.subrange(i + n, end));
        assert(escaped(text).push('"') =~= escape(c) + escaped(rest).push('"'));
    }
}

/// Where the literal of `text` stands at `i`, `quoted_at` reads `text`
/// there.
pub(crate) proof fn lemma_quoted_at_text(s: Seq<char>, i: int, text: Seq<char>)
    requires
        occurs_at(s, i, quoted(text)),
    ensures
        quoted_at(s, i) == Some((text, i + quoted(text).len())),
{
    let written = quoted(text);
    assert forall|k: int| 0 <= k < written.len() implies s[i + k] == #[trigger] written[k] by {
        assert(s.subrange(i, i + written.len())[k] == s[i + k]);
    }
    assert(s[i] == written[0]);
    assert(s.subrange(i + 1, i + 1 + escaped(text).len() + 1) =~= escaped(text).push('"')) by {
        assert forall|k: int| 0 <= k < escaped(text).len() + 1 implies s[i + 1 + k] == escaped(
            text,
        ).push('"')[k] by {
            assert(written[1 + k] == escaped(text).push('"')[k]);
        }
    }
    lemma_string_at_escaped(s, i + 1, text);
}

/// Where `quoted_at` reads a string, the literal of that string stands.
pub(crate) proof fn lemma_text_at_quoted(s: Seq<char>, i: int)
    requires
        quoted_at(s, i) is Some,
    ensures
        ({
            let (text, end) = quoted_at(s, i)->0;
            &&& end == i + quoted(text).len()
            &&& occurs_at(s, i, quoted(text))
        }),
{
    let (text, end) = quoted_at(s, i)->0;
    lemma_escaped_at_string(s, i + 1);
    assert(s.subrange(i, end) =~= seq![s[i]] + s.subrange(i + 1, end));
    assert(quoted(text) =~= seq!['"'] + escaped(text).push('"'));
}

} // verus!

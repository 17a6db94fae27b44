//! Characters, literals and decimal numbers: the small pieces from which the
//! wire format is written and read.

use vstd::prelude::*;

verus! {

/// Appends one character with `String::push` of std. Believed of std, not
/// proved: the character comes at the end, and the characters already held
/// stay as they are.
#[verifier::external_body]
pub(crate) fn push_char(out: &mut String, c: char)
    ensures
        final(out)@ == old(out)@.push(c),
{
    out.push(c);
}

/// The characters of `s`, in order.
pub(crate) fn chars_of(s: &str) -> (v: Vec<char>)
    ensures
        v@ == s@,
{
    let mut v: Vec<char> = Vec::new();
    for c in it: s.chars()
        invariant
            it.seq() == s@,
            v@ == it.seq().take(it.index()),
    {
        v.push(c);
    }
    v
}

/// `t` stands in `s` at index `i`.
pub open spec fn occurs_at(s: Seq<char>, i: int, t: Seq<char>) -> bool {
    &&& 0 <= i
    &&& i + t.len() <= s.len()
    &&& s.subrange(i, i + t.len()) == t
}

/// Where the literal `lit` stands in `chars` at index `i`, the index behind
/// it.
pub(crate) fn literal_at(chars: &Vec<char>, i: usize, lit: &str) -> (next: Option<usize>)
    ensures
        next is Some <==> occurs_at(chars@, i as int, lit@),
        next matches Some(n) ==> n == i + lit@.len(),
{
    let want = chars_of(lit);
    if i > chars.len() || want.len() > chars.len() - i {
        return None;
    }
    let mut k: usize = 0;
    while k < want.len()
        invariant
            i + want.len() <= chars.len(),
            k <= want.len(),
            want@ == lit@,
            forall|j: int| 0 <= j < k ==> chars@[i + j] == want@[j],
        decreases want.len() - k,
    {
        if chars[i + k] != want[k] {
            assert(chars@.subrange(i as int, i + want.len())[k as int] != want@[k as int]);
            return None;
        }
        k += 1;
    }
    assert(chars@.subrange(i as int, i + want.len()) =~= want@);
    Some(i + want.len())
}

/// A part of a text stands in it where the parts before it end.
pub(crate) proof fn lemma_occurs_in_concat(before: Seq<char>, part: Seq<char>, behind: Seq<char>)
    ensures
        occurs_at(before + part + behind, before.len() as int, part),
{
    let whole = before + part + behind;
    assert(whole.subrange(before.len() as int, (before.len() + part.len()) as int) =~= part);
}

/// The character that writes the digit `d`, for `d` from 0 to 9.
pub open spec fn digit_char(d: int) -> char {
    (d + 48) as char
}

/// Whether `c` is one of `0` to `9`.
pub open spec fn is_digit(c: char) -> bool {
    48 <= c as int <= 57
}

/// The digit that `c` writes.
pub open spec fn digit_value(c: char) -> int {
    c as int - 48
}

/// `n` in decimal, with zeros in front up to `width` characters. A number
/// that needs more than `width` digits gets them all.
pub open spec fn decimal(n: nat, width: nat) -> Seq<char>
    decreases n + width,
{
    if n < 10 && width <= 1 {
        seq![digit_char(n as int)]
    } else {
        decimal(n / 10, less_one(width)).push(digit_char((n % 10) as int))
    }
}

/// `width - 1`, and 0 for 0.
pub open spec fn less_one(width: nat) -> nat {
    if width == 0 {
        0
    } else {
        (width - 1) as nat
    }
}

/// The number that a string of digits writes.
pub open spec fn decimal_value(s: Seq<char>) -> nat
    decreases s.len(),
{
    if s.len() == 0 {
        0
    } else {
        decimal_value(s.drop_last()) * 10 + digit_value(s.last()) as nat
    }
}

/// Every character of `s` is a digit.
pub open spec fn all_digits(s: Seq<char>) -> bool {
    forall|i: int| 0 <= i < s.len() ==> is_digit(#[trigger] s[i])
}

/// How many digits stand in a row in `s` from index `i` on.
pub open spec fn digit_run(s: Seq<char>, i: int) -> nat
    decreases s.len() - i,
{
    if 0 <= i < s.len() && is_digit(s[i]) {
        1 + digit_run(s, i + 1)
    } else {
        0
    }
}

/// The character that writes the digit `d`.
pub(crate) fn digit_of(d: u8) -> (c: char)
    requires
        d < 10,
    ensures
        c == digit_char(d as int),
        is_digit(c),
        digit_value(c) == d,
{
    (48u8 + d) as char
}

/// The code point of a character is at most U+10FFFF, and the character is
/// the one with that code point. The verifier assumes this of a character
/// at hand, not of one taken out of a sequence: there it is called for.
pub(crate) proof fn lemma_char_range(c: char)
    ensures
        0 <= c as int <= 0x10FFFF,
        (c as int) as char == c,
{
}

/// The code point of `c`.
pub(crate) fn code_of(c: char) -> (code: u32)
    ensures
        code as int == c as int,
{
    c as u32
}

/// The digit written at `i`, if one is.
pub(crate) fn read_digit(chars: &Vec<char>, i: usize) -> (r: Option<u8>)
    ensures
        r is Some <==> i < chars.len() && is_digit(chars@[i as int]),
        r matches Some(d) ==> d == digit_value(chars@[i as int]) && d < 10,
{
    if i >= chars.len() {
        return None;
    }
    let code: u32 = code_of(chars[i]);
    if 48 <= code && code <= 57 {
        Some((code - 48) as u8)
    } else {
        None
    }
}

/// Appends `n` in decimal, with zeros in front up to `width` characters.
pub(crate) fn push_decimal(out: &mut String, n: u32, width: u32)
    ensures
        final(out)@ == old(out)@ + decimal(n as nat, width as nat),
    decreases n + width,
{
    if n < 10 && width <= 1 {
        push_char(out, digit_of(n as u8));
        assert(final(out)@ =~= old(out)@ + decimal(n as nat, width as nat));
    } else {
        let w: u32 = if width == 0 {
            0
        } else {
            width - 1
        };
        push_decimal(out, n / 10, w);
        push_char(out, digit_of((n % 10) as u8));
        assert(final(out)@ =~= old(out)@ + decimal(n as nat, width as nat));
    }
}

/// What `decimal` writes: digits only, at least `width` and at least one of
/// them, the number's own value, and no zero in front beyond the width.
pub(crate) proof fn lemma_decimal(n: nat, width: nat)
    ensures
        all_digits(decimal(n, width)),
        decimal(n, width).len() >= width,
        decimal(n, width).len() >= 1,
        n >= 10 ==> decimal(n, width).len() >= 2,
        decimal_value(decimal(n, width)) == n,
        decimal(n, width).len() > width && decimal(n, width).len() > 1 ==> decimal(n, width)[0]
            != '0',
    decreases n + width,
{
    let text = decimal(n, width);
    if n < 10 && width <= 1 {
        assert(text.drop_last() =~= Seq::<char>::empty());
        assert(text.last() == digit_char(n as int));
        assert(decimal_value(text.drop_last()) == 0);
        assert(decimal_value(text) == n);
    } else {
        let head = decimal(n / 10, less_one(width));
        let d = digit_char((n % 10) as int);
        lemma_decimal(n / 10, less_one(width));
        assert(text == head.push(d));
        assert(text.drop_last() =~= head);
        assert(text.last() == d);
        assert(digit_value(d) == n % 10);
        assert(decimal_value(text) == decimal_value(head) * 10 + digit_value(d));
        assert(text[0] == head[0]);
        if text.len() > width && text.len() > 1 {
            if head.len() == 1 {
                assert(n / 10 < 10 && less_one(width) <= 1);
                assert(head[0] == digit_char((n / 10) as int));
            }
        }
    }
}

/// A string of digits that starts with no zero is worth at least 1.
pub(crate) proof fn lemma_decimal_value_positive(s: Seq<char>)
    requires
        all_digits(s),
        s.len() >= 1,
        s[0] != '0',
    ensures
        decimal_value(s) >= 1,
    decreases s.len(),
{
    if s.len() > 1 {
        lemma_decimal_value_positive(s.drop_last());
    } else {
        assert(is_digit(s[0]));
    }
}

/// `decimal` is the only way to write a number: a string of at least
/// `width` digits with no zero in front beyond the width is what `decimal`
/// writes for its value.
pub(crate) proof fn lemma_decimal_of_value(s: Seq<char>, width: nat)
    requires
        all_digits(s),
        s.len() >= 1,
        s.len() >= width,
        s.len() == width || s.len() == 1 || s[0] != '0',
    ensures
        decimal(decimal_value(s), width) == s,
    decreases s.len(),
{
    let v = decimal_value(s);
    let front = s.drop_last();
    assert(is_digit(s.last()));
    if s.len() == 1 {
        assert(decimal_value(front) == 0);
        assert(decimal(v, width) =~= s);
    } else {
        if width <= 1 {
            lemma_decimal_value_positive(front);
        }
        assert(v / 10 == decimal_value(front) && v % 10 == digit_value(s.last()));
        assert(all_digits(front));
        lemma_decimal_of_value(front, less_one(width));
        assert(decimal(v, width) =~= s);
    }
}

/// The digits that start at `i` run on as far as digits stand there.
pub(crate) proof fn lemma_digit_run(s: Seq<char>, i: int, k: nat)
    requires
        0 <= i,
        i + k <= s.len(),
        all_digits(s.subrange(i, i + k)),
        i + k == s.len() || !is_digit(s[i + k]),
    ensures
        digit_run(s, i) == k,
    decreases k,
{
    if k > 0 {
        assert(s.subrange(i, i + k)[0] == s[i]);
        assert forall|j: int| 0 <= j < k - 1 implies is_digit(
            #[trigger] s.subrange(i + 1, i + k)[j],
        ) by {
            assert(s.subrange(i, i + k)[j + 1] == s[i + 1 + j]);
        }
        lemma_digit_run(s, i + 1, (k - 1) as nat);
    }
}

/// As far as `digit_run` counts, digits stand, and none right after them.
pub(crate) proof fn lemma_digit_run_digits(s: Seq<char>, i: int)
    requires
        0 <= i,
    ensures
        i + digit_run(s, i) <= s.len() || digit_run(s, i) == 0,
        i <= s.len() ==> all_digits(s.subrange(i, i + digit_run(s, i))),
        i + digit_run(s, i) < s.len() ==> !is_digit(s[i + digit_run(s, i)]),
    decreases s.len() - i,
{
    if i < s.len() && is_digit(s[i]) {
        lemma_digit_run_digits(s, i + 1);
        let k = digit_run(s, i);
        assert forall|j: int| 0 <= j < k implies is_digit(#[trigger] s.subrange(i, i + k)[j]) by {
            if j > 0 {
                assert(s.subrange(i + 1, i + k)[j - 1] == s[i + j]);
            }
        }
    }
}

} // verus!


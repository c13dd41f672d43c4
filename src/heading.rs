//! Reading a "day month" heading such as `24 dec` into a calendar date.

use crate::calendar::{resolve, resolve_spec, CalendarDate, Moment};
use vstd::prelude::*;

verus! {

pub open spec fn is_digit(c: char) -> bool {
    '0' <= c <= '9'
}

pub open spec fn digit_value(c: char) -> int {
    c as int - '0' as int
}

pub open spec fn all_digits(s: Seq<char>) -> bool {
    forall|i: int| 0 <= i < s.len() ==> is_digit(#[trigger] s[i])
}

/// The number that a string of decimal digits writes.
pub open spec fn decimal_value(s: Seq<char>) -> int
    decreases s.len(),
{
    if s.len() == 0 {
        0
    } else {
        decimal_value(s.drop_last()) * 10 + digit_value(s.last())
    }
}

/// The digits of an unsigned number, after an optional leading `+`.
pub open spec fn unsigned_body(s: Seq<char>) -> Seq<char> {
    if s.len() > 0 && s[0] == '+' {
        s.skip(1)
    } else {
        s
    }
}

/// What `str::parse::<u32>` gives: at least one decimal digit, after an optional
/// `+`, for a value that fits in 32 bits.
pub open spec fn parse_u32_spec(s: Seq<char>) -> Option<u32> {
    let b = unsigned_body(s);
    if b.len() > 0 && all_digits(b) && decimal_value(b) <= u32::MAX {
        Some(decimal_value(b) as u32)
    } else {
        None
    }
}

pub proof fn lemma_decimal_prefix(s: Seq<char>, k: int)
    requires
        all_digits(s),
        0 <= k <= s.len(),
    ensures
        decimal_value(s) >= decimal_value(s.take(k)),
        decimal_value(s) >= 0,
    decreases s.len(),
{
    if s.len() > 0 {
        let p = s.drop_last();
        assert(all_digits(p)) by {
            assert forall|i: int| 0 <= i < p.len() implies is_digit(#[trigger] p[i]) by {
                assert(p[i] == s[i]);
            }
        }
        assert(is_digit(s[s.len() - 1]));
        if k < s.len() {
            assert(p.take(k) =~= s.take(k));
            lemma_decimal_prefix(p, k);
        } else {
            assert(s.take(k) =~= s);
            lemma_decimal_prefix(p, 0);
        }
    }
}

/// Reads an unsigned 32-bit decimal number, as `str::parse::<u32>` does.
pub fn parse_u32(s: &str) -> (r: Option<u32>)
    ensures
        r == parse_u32_spec(s@),
{
    let n = s.unicode_len();
    let mut start: usize = 0;
    if n > 0 && s.get_char(0) == '+' {
        start = 1;
    }
    let ghost b = unsigned_body(s@);
    assert(b =~= s@.subrange(start as int, n as int));
    if start >= n {
        return None;
    }
    let mut i: usize = start;
    let mut value: u64 = 0;
    while i < n
        invariant
            start <= i <= n,
            n == s@.len(),
            b == unsigned_body(s@),
            b =~= s@.subrange(start as int, n as int),
            all_digits(b.take(i - start)),
            value == decimal_value(b.take(i - start)),
            value <= u32::MAX,
        decreases n - i,
    {
        let c = s.get_char(i);
        assert(b[i - start] == c);
        if !('0' <= c && c <= '9') {
            assert(!all_digits(b));
            return None;
        }
        let ghost next = b.take(i - start + 1);
        assert(next.drop_last() =~= b.take(i - start));
        assert(next.last() == c);
        let v: u64 = value * 10 + ((c as u32) - ('0' as u32)) as u64;
        assert(v == decimal_value(next));
        assert(all_digits(next)) by {
            assert forall|j: int| 0 <= j < next.len() implies is_digit(#[trigger] next[j]) by {
                if j < next.len() - 1 {
                    assert(next[j] == b.take(i - start)[j]);
                }
            }
        }
        if v > u32::MAX as u64 {
            proof {
                if all_digits(b) {
                    lemma_decimal_prefix(b, i - start + 1);
                }
            }
            return None;
        }
        value = v;
        i = i + 1;
    }
    assert(b.take(n - start) =~= b);
    Some(value as u32)
}

/// The month that a lowercase Swedish three-letter abbreviation names.
pub open spec fn month_of_letters(a: char, b: char, c: char) -> Option<u32> {
    match (a, b, c) {
        ('j', 'a', 'n') => Some(1u32),
        ('f', 'e', 'b') => Some(2u32),
        ('m', 'a', 'r') => Some(3u32),
        ('a', 'p', 'r') => Some(4u32),
        ('m', 'a', 'j') => Some(5u32),
        ('j', 'u', 'n') => Some(6u32),
        ('j', 'u', 'l') => Some(7u32),
        ('a', 'u', 'g') => Some(8u32),
        ('s', 'e', 'p') => Some(9u32),
        ('o', 'k', 't') => Some(10u32),
        ('n', 'o', 'v') => Some(11u32),
        ('d', 'e', 'c') => Some(12u32),
        _ => None,
    }
}

pub open spec fn month_number(w: Seq<char>) -> Option<u32> {
    if w.len() == 3 {
        month_of_letters(w[0], w[1], w[2])
    } else {
        None
    }
}

/// The month, 1 to 12, of an abbreviated month name.
pub fn month_of(word: &str) -> (r: Option<u32>)
    ensures
        r == month_number(word@),
        r matches Some(m) ==> 1 <= m <= 12,
{
    if word.unicode_len() != 3 {
        return None;
    }
    let a = word.get_char(0);
    let b = word.get_char(1);
    let c = word.get_char(2);
    match (a, b, c) {
        ('j', 'a', 'n') => Some(1),
        ('f', 'e', 'b') => Some(2),
        ('m', 'a', 'r') => Some(3),
        ('a', 'p', 'r') => Some(4),
        ('m', 'a', 'j') => Some(5),
        ('j', 'u', 'n') => Some(6),
        ('j', 'u', 'l') => Some(7),
        ('a', 'u', 'g') => Some(8),
        ('s', 'e', 'p') => Some(9),
        ('o', 'k', 't') => Some(10),
        ('n', 'o', 'v') => Some(11),
        ('d', 'e', 'c') => Some(12),
        _ => None,
    }
}

/// The day and month that a heading's words give: a day number first, then a
/// month abbreviation; further words are not read.
pub open spec fn day_month_of(words: Seq<Seq<char>>) -> Option<(u32, u32)> {
    if words.len() < 2 {
        None
    } else {
        match (parse_u32_spec(words[0]), month_number(words[1])) {
            (Some(d), Some(m)) => Some((d, m)),
            _ => None,
        }
    }
}

/// The date that a heading's words mean at `now`.
pub open spec fn normalized(words: Seq<Seq<char>>, now: Moment) -> Option<CalendarDate> {
    match day_month_of(words) {
        Some((d, m)) => resolve_spec(d, m, now),
        None => None,
    }
}

/// The characters of Unicode's White_Space property, which
/// `char::is_whitespace` tests.
pub open spec fn is_white_space(c: char) -> bool {
    ('\u{9}' <= c <= '\u{d}') || c == ' ' || c == '\u{85}' || c == '\u{a0}' || c == '\u{1680}'
        || ('\u{2000}' <= c <= '\u{200a}') || c == '\u{2028}' || c == '\u{2029}' || c
        == '\u{202f}' || c == '\u{205f}' || c == '\u{3000}'
}

/// The words of a text: its maximal runs of characters that are not white
/// space, in order.
pub open spec fn words_of(s: Seq<char>) -> Seq<Seq<char>>
    decreases s.len(),
{
    if s.len() == 0 {
        Seq::empty()
    } else {
        let w = words_of(s.drop_last());
        let c = s.last();
        if is_white_space(c) {
            w
        } else if s.len() >= 2 && !is_white_space(s[s.len() - 2]) {
            w.update(w.len() - 1, w.last().push(c))
        } else {
            w.push(seq![c])
        }
    }
}

/// Relies on str::split_whitespace: the maximal runs of characters of `s`
/// that are not white space, in order.
#[verifier::external_body]
fn split_words(s: &str) -> (r: Vec<String>)
    ensures
        r.deep_view() == words_of(s@),
{
    s.split_whitespace().map(String::from).collect()
}

pub fn day_month(words: &Vec<String>) -> (r: Option<(u32, u32)>)
    ensures
        r == day_month_of(words.deep_view()),
{
    if words.len() < 2 {
        return None;
    }
    assert(words.deep_view()[0] == words@[0]@);
    assert(words.deep_view()[1] == words@[1]@);
    let day = parse_u32(words[0].as_str());
    let month = month_of(words[1].as_str());
    match (day, month) {
        (Some(d), Some(m)) => Some((d, m)),
        _ => None,
    }
}

/// The date that a heading, already split into words, means at `now`.
pub fn normalize_words(words: &Vec<String>, now: &Moment) -> (r: Option<CalendarDate>)
    ensures
        r == normalized(words.deep_view(), *now),
{
    match day_month(words) {
        Some((d, m)) => resolve(d, m, now),
        None => None,
    }
}

/// The date that a heading such as `24 dec` means at `now`: `None` where the
/// heading is not a day and a month, or names no day of the year it falls in.
pub fn normalize_date(text: &str, now: &Moment) -> (r: Option<CalendarDate>)
    ensures
        r == normalized(words_of(text@), *now),
{
    let words = split_words(text);
    normalize_words(&words, now)
}

/// A heading read as day `d` and month `m` gives, where it resolves, a date of
/// that day and month.
pub proof fn lemma_normalized_day_month(words: Seq<Seq<char>>, now: Moment, d: u32, m: u32)
    requires
        day_month_of(words) == Some((d, m)),
        normalized(words, now) is Some,
    ensures
        normalized(words, now)->0.day == d,
        normalized(words, now)->0.month == m,
{
    crate::calendar::lemma_resolve_keeps_day_month(d, m, now);
}

} // verus!

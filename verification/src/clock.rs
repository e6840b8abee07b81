//! Wall-clock times as text and as seconds since midnight.
//!
//! A time is written `HH:MM:SS`. Reading is lenient about magnitudes: each of
//! the three parts is any decimal number, and the value of the text is
//! `h * 3600 + m * 60 + s`. Writing pads each part to two digits.

use vstd::prelude::*;
use vstd::string::*;
use crate::error::TrackError;

verus! {

/// The seconds in a minute.
pub const SECONDS_PER_MINUTE: i64 = 60;

/// The seconds in an hour.
pub const SECONDS_PER_HOUR: i64 = 3600;

/// Quotient of `a` by a positive `b`, rounded toward zero.
pub open spec fn trunc_div(a: int, b: int) -> int {
    if a >= 0 {
        a / b
    } else {
        -((-a) / b)
    }
}

/// The remainder that goes with [`trunc_div`]; it has the sign of `a`.
pub open spec fn trunc_rem(a: int, b: int) -> int {
    a - b * trunc_div(a, b)
}

/// True for the ten decimal digits.
pub open spec fn is_digit(c: char) -> bool {
    '0' <= c <= '9'
}

/// The number that a decimal digit stands for.
pub open spec fn digit_value(c: char) -> int {
    c as int - 48
}

/// The decimal digit that stands for `d`, where `0 <= d <= 9`.
pub open spec fn digit_char(d: int) -> char {
    (d + 48) as char
}

/// True when every character of `s` is a decimal digit.
pub open spec fn all_digits(s: Seq<char>) -> bool {
    forall|i: int| 0 <= i < s.len() ==> is_digit(#[trigger] s[i])
}

/// The value of a run of digits read as a decimal number.
pub open spec fn digits_value(s: Seq<char>) -> int
    decreases s.len(),
{
    if s.len() == 0 {
        0
    } else {
        10 * digits_value(s.drop_last()) + digit_value(s.last())
    }
}

/// The digits of one part of a time: the part itself, without the `+` that
/// may stand in front of it.
pub open spec fn part_digits(s: Seq<char>) -> Seq<char> {
    if s.len() > 0 && s[0] == '+' {
        s.skip(1)
    } else {
        s
    }
}

/// The value of one part of a time: an optional `+`, then one or more
/// digits, whose value fits in an `i64`. Anything else has no value.
pub open spec fn part_value(s: Seq<char>) -> Option<int> {
    let digits = part_digits(s);
    if digits.len() > 0 && all_digits(digits) && digits_value(digits) <= i64::MAX {
        Some(digits_value(digits))
    } else {
        None
    }
}

/// Where the first `:` of `s` stands, or `s.len()` if it has none.
pub open spec fn first_colon(s: Seq<char>) -> int
    decreases s.len(),
{
    if s.len() == 0 || s[0] == ':' {
        0
    } else {
        1 + first_colon(s.drop_first())
    }
}

/// The seconds since midnight that `HH:MM:SS` text stands for.
///
/// The text is cut at its first two `:`. It has a value when both are there,
/// each of the three parts has a value, and `h * 3600 + m * 60 + s` fits in
/// an `i64`. A third `:` ends up in the last part, which then has no value.
pub open spec fn clock_seconds(s: Seq<char>) -> Option<int> {
    let i = first_colon(s);
    let rest = s.skip(i + 1);
    let j = first_colon(rest);
    if i < s.len() && j < rest.len() {
        match (part_value(s.take(i)), part_value(rest.take(j)), part_value(rest.skip(j + 1))) {
            (Some(h), Some(m), Some(sec)) => {
                if h * 3600 + m * 60 + sec <= i64::MAX {
                    Some(h * 3600 + m * 60 + sec)
                } else {
                    None
                }
            },
            _ => None,
        }
    } else {
        None
    }
}

/// The decimal digits of `n`, without leading zeros.
pub open spec fn decimal(n: nat) -> Seq<char>
    decreases n,
{
    if n < 10 {
        seq![digit_char(n as int)]
    } else {
        decimal(n / 10).push(digit_char((n % 10) as int))
    }
}

/// `n` in decimal, at least two characters wide: a number below ten gets a
/// leading zero, and the sign of a negative number counts toward the width.
pub open spec fn two_digits(n: int) -> Seq<char> {
    if n < 0 {
        seq!['-'] + decimal((-n) as nat)
    } else if n < 10 {
        seq!['0'] + decimal(n as nat)
    } else {
        decimal(n as nat)
    }
}

/// The text `HH:MM:SS` for the given hour, minute and second.
pub open spec fn clock_text(h: int, m: int, s: int) -> Seq<char> {
    two_digits(h) + seq![':'] + two_digits(m) + seq![':'] + two_digits(s)
}

/// The text `HH:MM:SS` for a number of seconds.
pub open spec fn hhmmss(s: int) -> Seq<char> {
    clock_text(trunc_div(s, 3600), trunc_div(trunc_rem(s, 3600), 60), trunc_rem(s, 60))
}

/// The text `HH:MM` for a number of seconds: the hours and the minutes left
/// over, both rounded toward zero.
pub open spec fn hhmm(s: int) -> Seq<char> {
    two_digits(trunc_div(s, 3600)) + seq![':'] + two_digits(trunc_div(trunc_rem(s, 3600), 60))
}

/// `bytes` holds the characters of `chars`, one byte for each.
pub open spec fn same_text(bytes: Seq<u8>, chars: Seq<char>) -> bool {
    &&& bytes.len() == chars.len()
    &&& forall|i: int|
        #![trigger bytes[i]]
        #![trigger chars[i]]
        0 <= i < chars.len() ==> bytes[i] as int == chars[i] as int
}

/// `first_colon` is the one place with a `:` that has none before it.
pub proof fn lemma_first_colon(s: Seq<char>, k: int)
    requires
        0 <= k <= s.len(),
        forall|t: int| 0 <= t < k ==> s[t] != ':',
        k < s.len() ==> s[k] == ':',
    ensures
        first_colon(s) == k,
    decreases s.len(),
{
    if k > 0 {
        let tail = s.drop_first();
        lemma_first_colon(tail, k - 1);
    }
}

/// A run of digits is worth at least as much as any of its prefixes, and
/// never less than zero.
pub proof fn lemma_digits_value_grows(s: Seq<char>, p: int)
    requires
        all_digits(s),
        0 <= p <= s.len(),
    ensures
        0 <= digits_value(s.take(p)) <= digits_value(s),
    decreases s.len(),
{
    if p == s.len() {
        assert(s.take(p) =~= s);
        if s.len() > 0 {
            lemma_digits_value_grows(s.drop_last(), p - 1);
        }
    } else {
        lemma_digits_value_grows(s.drop_last(), p);
        assert(s.drop_last().take(p) =~= s.take(p));
    }
}

/// The first place at or after `start` that holds a `:`, or the length of
/// the text if there is none.
fn find_colon(bytes: &[u8], start: usize, Ghost(chars): Ghost<Seq<char>>) -> (k: usize)
    requires
        same_text(bytes@, chars),
        start <= bytes.len(),
    ensures
        start <= k <= bytes.len(),
        first_colon(chars.skip(start as int)) == k - start,
{
    let mut k: usize = start;
    while k < bytes.len() && bytes[k] != 58
        invariant
            same_text(bytes@, chars),
            start <= k <= bytes.len(),
            forall|t: int| start <= t < k ==> chars[t] != ':',
        decreases bytes.len() - k,
    {
        k = k + 1;
    }
    proof {
        lemma_first_colon(chars.skip(start as int), k - start);
    }
    k
}

/// Reads one part of a time, the bytes from `from` up to `to`.
fn parse_part(bytes: &[u8], from: usize, to: usize, Ghost(chars): Ghost<Seq<char>>) -> (r: Option<i64>)
    requires
        same_text(bytes@, chars),
        from <= to <= bytes.len(),
    ensures
        match r {
            Some(v) => v >= 0 && part_value(chars.subrange(from as int, to as int)) == Some(
                v as int,
            ),
            None => part_value(chars.subrange(from as int, to as int)) is None,
        },
{
    let mut k: usize = from;
    if k < to && bytes[k] == 43 {
        k = k + 1;
    }
    let first: usize = k;
    let ghost digits = chars.subrange(first as int, to as int);
    if first == to {
        return None;
    }
    let mut acc: i64 = 0;
    while k < to
        invariant
            same_text(bytes@, chars),
            first <= k <= to <= bytes.len(),
            digits == chars.subrange(first as int, to as int),
            digits == part_digits(chars.subrange(from as int, to as int)),
            all_digits(digits.take(k - first)),
            0 <= acc == digits_value(digits.take(k - first)),
        decreases to - k,
    {
        let b: u8 = bytes[k];
        let ghost seen = digits.take(k - first);
        let ghost more = digits.take(k + 1 - first);
        assert(more.drop_last() =~= seen);
        assert(more.last() == chars[k as int]);
        if b < 48 || b > 57 {
            return None;
        }
        let d: i64 = (b - 48) as i64;
        let next: Option<i64> = match acc.checked_mul(10) {
            Some(t) => t.checked_add(d),
            None => None,
        };
        match next {
            Some(v) => {
                acc = v;
            },
            None => {
                proof {
                    if all_digits(digits) {
                        lemma_digits_value_grows(digits, k + 1 - first);
                    }
                }
                return None;
            },
        }
        k = k + 1;
    }
    assert(digits.take(k - first) =~= digits);
    Some(acc)
}

/// Where `first_colon` points there is a `:`, and none stands before it.
pub proof fn lemma_first_colon_is_first(s: Seq<char>)
    ensures
        0 <= first_colon(s) <= s.len(),
        first_colon(s) < s.len() ==> s[first_colon(s)] == ':',
        forall|t: int| 0 <= t < first_colon(s) ==> s[t] != ':',
    decreases s.len(),
{
    if s.len() > 0 && s[0] != ':' {
        let tail = s.drop_first();
        lemma_first_colon_is_first(tail);
        assert forall|t: int| 0 <= t < first_colon(s) implies s[t] != ':' by {
            if t > 0 {
                assert(s[t] == tail[t - 1]);
            }
        }
    }
}

/// A part that has a value is made of digits, but for a `+` in front.
proof fn lemma_part_chars(p: Seq<char>, t: int)
    requires
        part_value(p) is Some,
        0 <= t < p.len(),
    ensures
        p[t] == '+' || is_digit(p[t]),
{
    if p[0] == '+' {
        if t > 0 {
            assert(p[t] == p.skip(1)[t - 1]);
        }
    }
}

/// Text that stands for a time holds digits, `:` and `+` only.
proof fn lemma_clock_chars(s: Seq<char>, t: int)
    requires
        clock_seconds(s) is Some,
        0 <= t < s.len(),
    ensures
        s[t] == ':' || s[t] == '+' || is_digit(s[t]),
{
    let i = first_colon(s);
    let rest = s.skip(i + 1);
    let j = first_colon(rest);
    lemma_first_colon_is_first(s);
    lemma_first_colon_is_first(rest);
    if t < i {
        lemma_part_chars(s.take(i), t);
    } else if t > i {
        let u = t - i - 1;
        if u < j {
            lemma_part_chars(rest.take(j), u);
        } else if u > j {
            lemma_part_chars(rest.skip(j + 1), u - j - 1);
        }
    }
}

/// Reads `HH:MM:SS` text as seconds since midnight.
///
/// The text is cut at `:` into three parts. Each part is an optional `+` and
/// one or more decimal digits; hours, minutes and seconds may be of any
/// magnitude that an `i64` holds. The result is `h * 3600 + m * 60 + s`.
/// Text of any other shape, or whose value an `i64` cannot hold, is
/// malformed.
pub fn hhmmss_to_s(hhmmss: &str) -> (r: Result<i64, TrackError>)
    ensures
        match r {
            Ok(v) => clock_seconds(hhmmss@) == Some(v as int),
            Err(e) => e == TrackError::MalformedTime && clock_seconds(hhmmss@) is None,
        },
{
    let ghost chars = hhmmss@;
    if !hhmmss.is_ascii() {
        proof {
            if clock_seconds(chars) is Some {
                assert forall|t: int| 0 <= t < chars.len() implies '\0' <= #[trigger] chars[t]
                    <= '\u{7f}' by {
                    lemma_clock_chars(chars, t);
                }
            }
        }
        return Err(TrackError::MalformedTime);
    }
    let bytes = hhmmss.as_bytes();
    assert(same_text(bytes@, chars));
    let n: usize = bytes.len();
    let i: usize = find_colon(bytes, 0, Ghost(chars));
    assert(chars.skip(0) =~= chars);
    if i >= n {
        return Err(TrackError::MalformedTime);
    }
    let ghost rest = chars.skip(i + 1);
    let j: usize = find_colon(bytes, i + 1, Ghost(chars));
    if j >= n {
        return Err(TrackError::MalformedTime);
    }
    assert(chars.subrange(i + 1, j as int) =~= rest.take(j - i - 1));
    assert(chars.subrange(j + 1, n as int) =~= rest.skip(j - i));
    let hours = parse_part(bytes, 0, i, Ghost(chars));
    let minutes = parse_part(bytes, i + 1, j, Ghost(chars));
    let seconds = parse_part(bytes, j + 1, n, Ghost(chars));
    match (hours, minutes, seconds) {
        (Some(h), Some(m), Some(s)) => {
            let from_hours: i128 = (h as i128) * (SECONDS_PER_HOUR as i128);
            let from_minutes: i128 = (m as i128) * (SECONDS_PER_MINUTE as i128);
            let total: i128 = from_hours + from_minutes + (s as i128);
            if total <= i64::MAX as i128 {
                Ok(total as i64)
            } else {
                Err(TrackError::MalformedTime)
            }
        },
        _ => Err(TrackError::MalformedTime),
    }
}

/// The one-character text of a decimal digit.
fn digit_str(d: u8) -> (text: &'static str)
    requires
        d < 10,
    ensures
        text@ == seq![digit_char(d as int)],
{
    proof {
        reveal_strlit("0");
        reveal_strlit("1");
        reveal_strlit("2");
        reveal_strlit("3");
        reveal_strlit("4");
        reveal_strlit("5");
        reveal_strlit("6");
        reveal_strlit("7");
        reveal_strlit("8");
        reveal_strlit("9");
    }
    let text = match d {
        0 => "0",
        1 => "1",
        2 => "2",
        3 => "3",
        4 => "4",
        5 => "5",
        6 => "6",
        7 => "7",
        8 => "8",
        _ => "9",
    };
    assert(text@ =~= seq![digit_char(d as int)]);
    text
}

/// Appends the decimal digits of `n`.
fn push_decimal(out: &mut String, n: u128)
    ensures
        final(out)@ == old(out)@ + decimal(n as nat),
    decreases n,
{
    if n >= 10 {
        push_decimal(out, n / 10);
    }
    let d: u8 = (n % 10) as u8;
    out.append(digit_str(d));
}

/// Appends `n` in decimal, at least two characters wide.
fn push_two_digits(out: &mut String, n: i128)
    ensures
        final(out)@ == old(out)@ + two_digits(n as int),
{
    if n < 0 {
        proof {
            reveal_strlit("-");
        }
        out.append("-");
        let m: u128 = ((-(n + 1)) as u128) + 1;
        push_decimal(out, m);
    } else {
        if n < 10 {
            proof {
                reveal_strlit("0");
            }
            out.append("0");
        }
        push_decimal(out, n as u128);
    }
}

/// Writes a number of seconds as `HH:MM`.
///
/// The hours are `s / 3600` and the minutes `(s % 3600) / 60`, both rounded
/// toward zero, each at least two characters wide. Seconds below zero are
/// not turned away: their hours and minutes come out with a `-`.
pub fn s_to_hhmm(s: i128) -> (text: String)
    ensures
        text@ == hhmm(s as int),
{
    let hours: i128 = s / (SECONDS_PER_HOUR as i128);
    let minutes: i128 = (s % (SECONDS_PER_HOUR as i128)) / (SECONDS_PER_MINUTE as i128);
    let mut text = String::new();
    push_two_digits(&mut text, hours);
    proof {
        reveal_strlit(":");
    }
    text.append(":");
    push_two_digits(&mut text, minutes);
    text
}

/// Writes a number of seconds as `HH:MM:SS`, each part rounded toward zero
/// and at least two characters wide.
pub fn s_to_hhmmss(s: i128) -> (text: String)
    ensures
        text@ == hhmmss(s as int),
{
    let hours: i128 = s / (SECONDS_PER_HOUR as i128);
    let minutes: i128 = (s % (SECONDS_PER_HOUR as i128)) / (SECONDS_PER_MINUTE as i128);
    let seconds: i128 = s % (SECONDS_PER_MINUTE as i128);
    let mut text = String::new();
    proof {
        reveal_strlit(":");
    }
    push_two_digits(&mut text, hours);
    text.append(":");
    push_two_digits(&mut text, minutes);
    text.append(":");
    push_two_digits(&mut text, seconds);
    text
}

/// How far apart two numbers of seconds are.
pub open spec fn distance(from: int, to: int) -> int {
    if to >= from {
        to - from
    } else {
        from - to
    }
}

/// The time between two clock readings, written `HH:MM`. It is the same
/// whichever of the two is the later one. Both readings must be well-formed.
pub fn _hhmmss_distance(from: &str, to: &str) -> (r: Result<String, TrackError>)
    ensures
        match r {
            Ok(text) => {
                &&& clock_seconds(from@) is Some
                &&& clock_seconds(to@) is Some
                &&& text@ == hhmm(distance(clock_seconds(from@)->0, clock_seconds(to@)->0))
            },
            Err(e) => {
                &&& e == TrackError::MalformedTime
                &&& (clock_seconds(from@) is None || clock_seconds(to@) is None)
            },
        },
{
    let from_s: i64 = match hhmmss_to_s(from) {
        Ok(v) => v,
        Err(e) => {
            return Err(e);
        },
    };
    let to_s: i64 = match hhmmss_to_s(to) {
        Ok(v) => v,
        Err(e) => {
            return Err(e);
        },
    };
    let apart: i128 = if to_s >= from_s {
        to_s as i128 - from_s as i128
    } else {
        from_s as i128 - to_s as i128
    };
    Ok(s_to_hhmm(apart))
}

/// The decimal digits of a number are digits, and read back as the number.
pub proof fn lemma_decimal(n: nat)
    ensures
        decimal(n).len() >= 1,
        all_digits(decimal(n)),
        digits_value(decimal(n)) == n,
    decreases n,
{
    if n < 10 {
        let s = decimal(n);
        assert(digits_value(s.drop_last()) == 0);
    } else {
        lemma_decimal(n / 10);
        let s = decimal(n);
        assert(s.drop_last() =~= decimal(n / 10));
    }
}

/// A number that is not negative, written two digits wide, is a part of a
/// time with that number as its value.
pub proof fn lemma_two_digits(n: int)
    requires
        0 <= n,
    ensures
        two_digits(n).len() >= 2,
        all_digits(two_digits(n)),
        digits_value(two_digits(n)) == n,
        n <= i64::MAX ==> part_value(two_digits(n)) == Some(n),
{
    lemma_decimal(n as nat);
    let s = two_digits(n);
    if n < 10 {
        assert(digits_value(s.drop_last()) == 0) by {
            reveal_with_fuel(digits_value, 2);
        }
    } else {
        lemma_decimal((n / 10) as nat);
    }
}

/// Three numbers that are not negative, written as `HH:MM:SS`, read back as
/// `h * 3600 + m * 60 + s`, whatever their magnitude, as long as an `i64`
/// holds each of them and the result.
pub proof fn lemma_clock_text_reads_back(h: int, m: int, s: int)
    requires
        0 <= h <= i64::MAX,
        0 <= m <= i64::MAX,
        0 <= s <= i64::MAX,
        h * 3600 + m * 60 + s <= i64::MAX,
    ensures
        clock_seconds(clock_text(h, m, s)) == Some(h * 3600 + m * 60 + s),
{
    let a = two_digits(h);
    let b = two_digits(m);
    let c = two_digits(s);
    let text = clock_text(h, m, s);
    lemma_two_digits(h);
    lemma_two_digits(m);
    lemma_two_digits(s);
    lemma_first_colon(text, a.len() as int);
    let rest = text.skip(a.len() as int + 1);
    lemma_first_colon(rest, b.len() as int);
    assert(text.take(a.len() as int) =~= a);
    assert(rest.take(b.len() as int) =~= b);
    assert(rest.skip(b.len() as int + 1) =~= c);
}

/// A time of day written as `HH:MM:SS` reads back as the second it names.
pub proof fn lemma_time_of_day_reads_back(h: int, m: int, s: int)
    requires
        0 <= h <= 23,
        0 <= m <= 59,
        0 <= s <= 59,
    ensures
        clock_seconds(clock_text(h, m, s)) == Some(h * 3600 + m * 60 + s),
{
    lemma_clock_text_reads_back(h, m, s);
}

/// Seconds that are not negative, written as `HH:MM:SS`, read back as
/// themselves.
pub proof fn lemma_hhmmss_reads_back(t: int)
    requires
        0 <= t <= i64::MAX,
    ensures
        clock_seconds(hhmmss(t)) == Some(t),
{
    let h = trunc_div(t, 3600);
    let m = trunc_div(trunc_rem(t, 3600), 60);
    let s = trunc_rem(t, 60);
    lemma_clock_text_reads_back(h, m, s);
}

/// `HH:MM` text is settled by the whole hours and the whole minutes left
/// over: seconds that agree on both are written alike.
pub proof fn lemma_hhmm_by_hours_and_minutes(a: int, b: int)
    requires
        trunc_div(a, 3600) == trunc_div(b, 3600),
        trunc_div(trunc_rem(a, 3600), 60) == trunc_div(trunc_rem(b, 3600), 60),
    ensures
        hhmm(a) == hhmm(b),
{
}

} // verus!

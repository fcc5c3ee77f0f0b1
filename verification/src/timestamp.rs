//! Points in time, in milliseconds since the start of 1970 in UTC.

use crate::calendar::{civil_from_days, days_from_civil};
use crate::json::JsonView;
use crate::text::{chars_of, concat, parse_i64, quote};
use serde_json::Value;
use vstd::prelude::*;

verus! {

/// The number that the digits of `t` from index `from` up to `to` write.
pub open spec fn number_at(t: Seq<char>, from: int, to: int) -> Option<int> {
    if crate::text::all_digits(t.subrange(from, to)) {
        Some(crate::text::digits_value(t.subrange(from, to)))
    } else {
        None
    }
}

/// The days that the date `YYYY-MM-DD` at the start of `t` lies after 1970-01-01.
pub open spec fn date_days(t: Seq<char>) -> Option<int> {
    match (number_at(t, 0, 4), number_at(t, 5, 7), number_at(t, 8, 10)) {
        (Some(y), Some(m), Some(d)) => {
            if t[4] == '-' && t[7] == '-' && crate::calendar::valid_date(y, m, d) {
                Some(crate::calendar::epoch_days(y, m, d))
            } else {
                None
            }
        },
        _ => None,
    }
}

/// The seconds since midnight that `Thh:mm:ss` after the date gives.
pub open spec fn clock_seconds(t: Seq<char>) -> Option<int> {
    match (number_at(t, 11, 13), number_at(t, 14, 16), number_at(t, 17, 19)) {
        (Some(h), Some(m), Some(s)) => {
            if t[10] == 'T' && t[13] == ':' && t[16] == ':' && h <= 23 && m <= 59 && s <= 59 {
                Some(h * 3600 + m * 60 + s)
            } else {
                None
            }
        },
        _ => None,
    }
}

/// The number of digits at the start of `t`.
pub open spec fn digit_run(t: Seq<char>) -> int
    decreases t.len(),
{
    if t.len() > 0 && crate::text::is_digit(t[0]) {
        1 + digit_run(t.skip(1))
    } else {
        0
    }
}

/// The whole milliseconds in the fraction of a second that the digits `f` write; what lies
/// below a millisecond is cut off.
pub open spec fn fraction_millis(f: Seq<char>) -> int {
    if f.len() == 1 {
        crate::text::digits_value(f) * 100
    } else if f.len() == 2 {
        crate::text::digits_value(f) * 10
    } else {
        crate::text::digits_value(f.take(3))
    }
}

/// The seconds by which the local time of the zone `z` is ahead of UTC: `Z`, or `+hh:mm` or
/// `-hh:mm`.
pub open spec fn zone_seconds(z: Seq<char>) -> Option<int> {
    if z.len() == 1 && (z[0] == 'Z' || z[0] == 'z') {
        Some(0)
    } else if z.len() == 6 && (z[0] == '+' || z[0] == '-') && z[3] == ':' {
        match (number_at(z, 1, 3), number_at(z, 4, 6)) {
            (Some(h), Some(m)) => {
                if h <= 23 && m <= 59 {
                    Some(if z[0] == '-' { -(h * 3600 + m * 60) } else { h * 3600 + m * 60 })
                } else {
                    None
                }
            },
            _ => None,
        }
    } else {
        None
    }
}

/// The milliseconds that the fraction and the zone after the seconds add: the fraction of one to
/// nine digits may be left out, the zone not.
pub open spec fn tail_millis(t: Seq<char>) -> Option<int> {
    if t.len() > 0 && t[0] == '.' {
        let n = digit_run(t.skip(1));
        match zone_seconds(t.skip(1 + n)) {
            Some(z) => {
                if 1 <= n <= 9 {
                    Some(fraction_millis(t.subrange(1, 1 + n)) - z * 1000)
                } else {
                    None
                }
            },
            None => None,
        }
    } else {
        match zone_seconds(t) {
            Some(z) => Some(-z * 1000),
            None => None,
        }
    }
}

/// The milliseconds since the start of 1970 in UTC at which the RFC 3339 timestamp `t` lies.
pub open spec fn rfc3339_millis(t: Seq<char>) -> Option<int> {
    if t.len() < 20 {
        None
    } else {
        match (date_days(t), clock_seconds(t), tail_millis(t.skip(19))) {
            (Some(days), Some(seconds), Some(rest)) => Some(
                (days * 86400 + seconds) * 1000 + rest,
            ),
            _ => None,
        }
    }
}

/// What is said of a text that is no timestamp.
pub open spec fn invalid_timestamp(t: Seq<char>) -> Seq<char> {
    "invalid RFC3339 timestamp: "@ + crate::text::quoted(t)
}

/// The number that the digits from index `from` up to `to` write.
fn field(chars: &Vec<char>, from: usize, to: usize) -> (r: Option<i64>)
    requires
        from < to <= chars@.len(),
        to - from <= 4,
    ensures
        r == match number_at(chars@, from as int, to as int) {
            Some(n) => Some(n as i64),
            None => None,
        },
        r matches Some(n) ==> 0 <= n <= 9999 && number_at(chars@, from as int, to as int) == Some(
            n as int,
        ) && (to - from == 2 ==> n <= 99),
{
    let ghost s = chars@.subrange(from as int, to as int);
    let mut n: i64 = 0;
    let ghost mut bound: int = 1;
    for i in from..to
        invariant
            from < to <= chars@.len(),
            to - from <= 4,
            s == chars@.subrange(from as int, to as int),
            forall|j: int| 0 <= j < i - from ==> crate::text::is_digit(#[trigger] s[j]),
            n == crate::text::digits_value(s.take(i - from)),
            0 <= n < bound,
            i - from == 0 ==> bound == 1,
            i - from == 1 ==> bound == 10,
            i - from == 2 ==> bound == 100,
            i - from == 3 ==> bound == 1000,
            i - from == 4 ==> bound == 10000,
    {
        let c: char = chars[i];
        assert(c == s[i - from]);
        if !(c >= '0' && c <= '9') {
            assert(!crate::text::is_digit(s[i - from]));
            return None;
        }
        assert(s.take(i - from + 1).drop_last() =~= s.take(i - from));
        n = n * 10 + (c as u32 - 48) as i64;
        proof {
            bound = bound * 10;
        }
    }
    assert(s.take(s.len() as int) =~= s);
    Some(n)
}

/// The days after 1970-01-01 of the date at the start of `chars`.
fn date(chars: &Vec<char>) -> (r: Option<i64>)
    requires
        chars@.len() >= 10,
    ensures
        r matches Some(n) ==> date_days(chars@) == Some(n as int) && -719_528 <= n <= 2_932_896,
        r is None ==> date_days(chars@) is None,
{
    if chars[4] != '-' || chars[7] != '-' {
        return None;
    }
    let year: i64 = field(chars, 0, 4)?;
    let month: i64 = field(chars, 5, 7)?;
    let day: i64 = field(chars, 8, 10)?;
    if month < 1 || month > 12 || day < 1 || day > 31 {
        return None;
    }
    proof {
        crate::calendar::lemma_four_digit_years(year as int, month as int, day as int);
    }
    let days: i64 = days_from_civil(year, month, day);
    let back: (i32, u32, u32) = civil_from_days(days);
    let same: bool = back.0 == year as i32 && back.1 == month as u32 && back.2 == day as u32;
    proof {
        let (y, m, d) = (year as int, month as int, day as int);
        let (bm, bd) = (back.1 as int, back.2 as int);
        let by = choose|by: int| #![trigger crate::calendar::valid_date(by, bm, bd)]
            crate::calendar::valid_date(by, bm, bd)
            && crate::calendar::epoch_days(by, bm, bd) == days && back.0 == by as i32;
        if crate::calendar::valid_date(y, m, d) {
            crate::calendar::law_date_is_unique((y, m, d), (by, bm, bd));
        } else if same {
            crate::calendar::lemma_same_year(y, by, m, d);
        }
    }
    if same {
        Some(days)
    } else {
        None  // a day that the month does not have, such as 30 February
    }
}

/// The seconds since midnight of the time of day after the date.
fn clock(chars: &Vec<char>) -> (r: Option<i64>)
    requires
        chars@.len() >= 19,
    ensures
        r matches Some(n) ==> clock_seconds(chars@) == Some(n as int) && 0 <= n < 86400,
        r is None ==> clock_seconds(chars@) is None,
{
    if chars[10] != 'T' || chars[13] != ':' || chars[16] != ':' {
        return None;
    }
    let hour: i64 = field(chars, 11, 13)?;
    let minute: i64 = field(chars, 14, 16)?;
    let second: i64 = field(chars, 17, 19)?;
    if hour > 23 || minute > 59 || second > 59 {
        return None;
    }
    Some(hour * 3600 + minute * 60 + second)
}

/// Fields do not depend on what stands before the part that holds them.
proof fn lemma_number_at_skip(t: Seq<char>, k: int, from: int, to: int)
    requires
        0 <= k,
        0 <= from <= to,
        k + to <= t.len(),
    ensures
        number_at(t.skip(k), from, to) == number_at(t, k + from, k + to),
{
    assert(t.skip(k).subrange(from, to) =~= t.subrange(k + from, k + to));
}

/// The seconds by which the zone that starts at index `i` and ends `chars` is ahead of UTC.
fn zone(chars: &Vec<char>, i: usize) -> (r: Option<i64>)
    requires
        i <= chars@.len(),
    ensures
        r matches Some(n) ==> zone_seconds(chars@.skip(i as int)) == Some(n as int) && -86400 < n
            < 86400,
        r is None ==> zone_seconds(chars@.skip(i as int)) is None,
{
    let ghost z = chars@.skip(i as int);
    let rest: usize = chars.len() - i;
    if rest == 1 && (chars[i] == 'Z' || chars[i] == 'z') {
        return Some(0);
    }
    if rest != 6 || (chars[i] != '+' && chars[i] != '-') || chars[i + 3] != ':' {
        return None;
    }
    proof {
        lemma_number_at_skip(chars@, i as int, 1, 3);
        lemma_number_at_skip(chars@, i as int, 4, 6);
    }
    let hours: i64 = field(chars, i + 1, i + 3)?;
    let minutes: i64 = field(chars, i + 4, i + 6)?;
    if hours > 23 || minutes > 59 {
        return None;
    }
    let ahead: i64 = hours * 3600 + minutes * 60;
    if chars[i] == '-' {
        Some(-ahead)
    } else {
        Some(ahead)
    }
}

/// Digits at the start of `t` belong to the run, and a character that is none ends it.
proof fn lemma_digit_run(t: Seq<char>, n: int)
    requires
        0 <= n <= t.len(),
        forall|i: int| 0 <= i < n ==> crate::text::is_digit(#[trigger] t[i]),
    ensures
        digit_run(t) >= n,
        n == t.len() || !crate::text::is_digit(t[n]) ==> digit_run(t) == n,
    decreases n,
{
    if n > 0 {
        lemma_digit_run(t.skip(1), n - 1);
    } else if t.len() > 0 && crate::text::is_digit(t[0]) {
        lemma_digit_run_not_negative(t.skip(1));
    }
}

proof fn lemma_digit_run_not_negative(t: Seq<char>)
    ensures
        digit_run(t) >= 0,
    decreases t.len(),
{
    if t.len() > 0 && crate::text::is_digit(t[0]) {
        lemma_digit_run_not_negative(t.skip(1));
    }
}

/// One more digit of a fraction counts a tenth of the digit before it, down to the third.
proof fn lemma_fraction_step(f: Seq<char>, k: int)
    requires
        0 <= k < f.len(),
    ensures
        k == 0 ==> fraction_millis(f.take(1)) == (f[0] as int - 48) * 100,
        k == 1 ==> fraction_millis(f.take(2)) == fraction_millis(f.take(1)) + (f[1] as int - 48)
            * 10,
        k == 2 ==> fraction_millis(f.take(3)) == fraction_millis(f.take(2)) + (f[2] as int - 48),
        k >= 3 ==> fraction_millis(f.take(k + 1)) == fraction_millis(f.take(k)),
{
    reveal_with_fuel(crate::text::digits_value, 4);
    if k == 0 {
        assert(f.take(1).drop_last() =~= f.take(0));
    } else if k == 1 {
        assert(f.take(2).drop_last() =~= f.take(1));
    } else if k == 2 {
        assert(f.take(3).take(3) =~= f.take(3));
        assert(f.take(3).drop_last() =~= f.take(2));
    } else {
        assert(f.take(k + 1).take(3) =~= f.take(k).take(3));
    }
}

/// The milliseconds that the fraction and the zone after the seconds add.
fn tail(chars: &Vec<char>) -> (r: Option<i64>)
    requires
        chars@.len() >= 20,
    ensures
        r matches Some(n) ==> tail_millis(chars@.skip(19)) == Some(n as int) && -86_400_000 < n
            < 86_401_000,
        r is None ==> tail_millis(chars@.skip(19)) is None,
{
    let ghost t = chars@.skip(19);
    if chars[19] != '.' {
        let ahead: i64 = zone(chars, 19)?;
        return Some(-ahead * 1000);
    }
    let ghost f = chars@.skip(20);
    assert(t.skip(1) =~= f);
    let mut i: usize = 20;
    let mut frac: i64 = 0;
    let mut scale: i64 = 100;
    let mut digits: usize = 0;
    while i < chars.len() && chars[i] >= '0' && chars[i] <= '9' && digits < 9
        invariant
            chars@.len() >= 20,
            f == chars@.skip(20),
            digits <= 9,
            i == 20 + digits,
            i <= chars@.len(),
            forall|j: int| 0 <= j < digits ==> crate::text::is_digit(#[trigger] f[j]),
            digits == 0 ==> frac == 0 && scale == 100,
            digits > 0 ==> frac == fraction_millis(f.take(digits as int)),
            0 <= frac <= 999,
            digits == 1 ==> scale == 10 && frac <= 900,
            digits == 2 ==> scale == 1 && frac <= 990,
        decreases chars@.len() - i,
    {
        let c: char = chars[i];
        assert(c == f[digits as int]);
        proof {
            lemma_fraction_step(f, digits as int);
        }
        if digits < 3 {
            frac = frac + (c as u32 - 48) as i64 * scale;
            scale = scale / 10;
        }
        digits = digits + 1;
        i = i + 1;
    }
    proof {
        lemma_digit_run(f, digits as int);
        assert(t.skip(1 + digits) =~= chars@.skip(i as int));
        assert(t.subrange(1, 1 + digits) =~= f.take(digits as int));
    }
    if digits == 0 || (i < chars.len() && chars[i] >= '0' && chars[i] <= '9') {
        return None;
    }
    let ahead: i64 = zone(chars, i)?;
    Some(frac - ahead * 1000)
}

/// The milliseconds since the start of 1970 in UTC at which the RFC 3339 timestamp `s` lies.
pub fn parse_rfc3339_millis(s: &str) -> (r: Result<i64, String>)
    ensures
        match rfc3339_millis(s@) {
            Some(n) => i64::MIN <= n <= i64::MAX && r == Ok::<i64, String>(n as i64),
            None => crate::text::result_view(r) == Err::<i64, Seq<char>>(invalid_timestamp(s@)),
        },
{
    let chars: Vec<char> = chars_of(s);
    let millis: Option<i64> = if chars.len() < 20 {
        None
    } else {
        match (date(&chars), clock(&chars), tail(&chars)) {
            (Some(days), Some(seconds), Some(rest)) => Some(
                (days * 86_400 + seconds) * 1000 + rest,
            ),
            _ => None,
        }
    };
    match millis {
        Some(n) => Ok(n),
        None => Err(concat("invalid RFC3339 timestamp: ", quote(s).as_str())),
    }
}

/// The milliseconds that a count of seconds comes to, where they fit in an `i64`.
pub open spec fn seconds_millis(seconds: int) -> Result<i64, Seq<char>> {
    if i64::MIN <= seconds * 1000 <= i64::MAX {
        Ok((seconds * 1000) as i64)
    } else {
        Err("timestamp out of range"@)
    }
}

/// The milliseconds of a timestamp as text.
pub open spec fn text_millis(t: Seq<char>) -> Result<i64, Seq<char>> {
    match rfc3339_millis(t) {
        Some(n) => Ok(n as i64),
        None => Err(invalid_timestamp(t)),
    }
}

/// The milliseconds of the timestamp of a log entry: a string in the form of RFC 3339, or a count
/// of seconds.
pub open spec fn timestamp_millis(v: JsonView) -> Result<i64, Seq<char>> {
    match v {
        JsonView::Integer(n) => if i64::MIN <= n <= i64::MAX {
            seconds_millis(n)
        } else {
            Err("must be an integer count of seconds"@)
        },
        JsonView::Real(_) => Err("must be an integer count of seconds"@),
        JsonView::Text(s) => text_millis(s),
        _ => Err("must be an RFC3339 string or unix seconds number"@),
    }
}

/// The milliseconds of a timestamp in a query: a count of seconds, or the form of RFC 3339. A
/// count that does not fit in an `i64` is none.
pub open spec fn param_millis(t: Seq<char>) -> Result<i64, Seq<char>> {
    match crate::text::integer_value(t) {
        Some(n) => if i64::MIN <= n <= i64::MAX {
            seconds_millis(n)
        } else {
            text_millis(t)
        },
        None => text_millis(t),
    }
}

/// The milliseconds that a count of seconds comes to.
fn millis_of_seconds(seconds: i64) -> (r: Result<i64, String>)
    ensures
        crate::text::result_view(r) == seconds_millis(seconds as int),
{
    match seconds.checked_mul(1000) {
        Some(n) => Ok(n),
        None => Err("timestamp out of range".to_owned()),
    }
}

/// The milliseconds of the timestamp of a log entry.
pub fn parse_timestamp(v: &Value) -> (r: Result<i64, String>)
    ensures
        crate::text::result_view(r) == timestamp_millis(crate::json::json_view(*v)),
{
    if v.is_number() {
        return match v.as_i64() {
            Some(seconds) => millis_of_seconds(seconds),
            None => Err("must be an integer count of seconds".to_owned()),
        };
    }
    match v.as_str() {
        Some(s) => parse_rfc3339_millis(s),
        None => Err("must be an RFC3339 string or unix seconds number".to_owned()),
    }
}

/// The milliseconds of a timestamp in a query.
pub fn parse_ts_param(s: &str) -> (r: Result<i64, String>)
    ensures
        crate::text::result_view(r) == param_millis(s@),
{
    match parse_i64(s) {
        Some(seconds) => millis_of_seconds(seconds),
        None => parse_rfc3339_millis(s),
    }
}

/// Two readings of the same clock are apart by the difference of their zones: a zone that is
/// ahead of UTC by some seconds names an instant that many seconds earlier than `Z` does. `head`
/// is the date, the time and, where there is one, the fraction.
pub proof fn law_zone_shifts_the_instant(head: Seq<char>, zone: Seq<char>)
    requires
        head.len() == 19 || (head.len() > 20 && head[19] == '.' && crate::text::all_digits(
            head.skip(20),
        )),
        zone_seconds(zone) is Some,
    ensures
        rfc3339_millis(head + zone) == match rfc3339_millis(head + seq!['Z']) {
            Some(n) => Some(n - zone_seconds(zone)->0 * 1000),
            None => None,
        },
{
    let utc = seq!['Z'];
    let (a, b) = (head + zone, head + utc);
    assert forall|from: int, to: int| 0 <= from <= to <= 19 implies #[trigger] number_at(a, from, to)
        == number_at(b, from, to) by {
        assert(a.subrange(from, to) =~= b.subrange(from, to));
    }
    assert(zone_seconds(utc) == Some(0int));
    if head.len() == 19 {
        assert(a.skip(19) =~= zone);
        assert(b.skip(19) =~= utc);
    } else {
        let n = head.len() - 20;
        let (ta, tb) = (a.skip(19), b.skip(19));
        assert(ta.skip(1) =~= head.skip(20) + zone);
        assert(tb.skip(1) =~= head.skip(20) + utc);
        lemma_digit_run(ta.skip(1), n);
        lemma_digit_run(tb.skip(1), n);
        assert(ta.skip(1 + n) =~= zone);
        assert(tb.skip(1 + n) =~= utc);
        assert(ta.subrange(1, 1 + n) =~= tb.subrange(1, 1 + n));
    }
}

/// A timestamp means the same in a query and in a log entry: a count of seconds as a number, and
/// any text that is no such count as a string.
pub proof fn law_query_and_entry_read_alike(t: Seq<char>)
    ensures
        match crate::text::integer_value(t) {
            Some(n) => i64::MIN <= n <= i64::MAX ==> param_millis(t) == timestamp_millis(
                JsonView::Integer(n),
            ),
            None => param_millis(t) == timestamp_millis(JsonView::Text(t)),
        },
{
}

/// The digits of a run are as many as it says.
proof fn lemma_run_is_digits(t: Seq<char>)
    ensures
        0 <= digit_run(t) <= t.len(),
        forall|i: int| 0 <= i < digit_run(t) ==> crate::text::is_digit(#[trigger] t[i]),
    decreases t.len(),
{
    if t.len() > 0 && crate::text::is_digit(t[0]) {
        lemma_run_is_digits(t.skip(1));
        assert forall|i: int| 0 <= i < digit_run(t) implies crate::text::is_digit(
            #[trigger] t[i],
        ) by {
            if i > 0 {
                assert(crate::text::is_digit(t.skip(1)[i - 1]));
            }
        }
    }
}

/// Two digits write a number below one hundred.
proof fn lemma_two_digits(t: Seq<char>, from: int)
    requires
        0 <= from,
        from + 2 <= t.len(),
    ensures
        number_at(t, from, from + 2) == if '0' <= t[from] <= '9' && '0' <= t[from + 1] <= '9' {
            Some((t[from] as int - 48) * 10 + (t[from + 1] as int - 48))
        } else {
            None
        },
{
    let s = t.subrange(from, from + 2);
    reveal_with_fuel(crate::text::digits_value, 3);
    assert(s[0] == t[from] && s[1] == t[from + 1]);
    assert(s.drop_last().drop_last() =~= Seq::empty());
}

/// The fields of the date and the time do not depend on what follows them, and what follows is a
/// fraction and a zone, each by itself.
#[verifier::rlimit(50)]
proof fn lemma_parts(head: Seq<char>, f: Seq<char>, zone: Seq<char>)
    requires
        head.len() == 19,
        forall|i: int| 0 <= i < f.len() ==> crate::text::is_digit(#[trigger] f[i]),
        zone.len() > 0,
        !crate::text::is_digit(zone[0]),
        zone[0] != '.',
    ensures
        date_days(head + zone) == date_days(head),
        clock_seconds(head + zone) == clock_seconds(head),
        tail_millis((head + zone).skip(19)) == match zone_seconds(zone) {
            Some(z) => Some(-z * 1000),
            None => None,
        },
        date_days(head + seq!['.'] + f + zone) == date_days(head),
        clock_seconds(head + seq!['.'] + f + zone) == clock_seconds(head),
        tail_millis((head + seq!['.'] + f + zone).skip(19)) == match zone_seconds(zone) {
            Some(z) => if 1 <= f.len() <= 9 {
                Some(fraction_millis(f) - z * 1000)
            } else {
                None
            },
            None => None,
        },
{
    let (a, b) = (head + zone, head + seq!['.'] + f + zone);
    assert forall|from: int, to: int| 0 <= from <= to <= 19 implies #[trigger] number_at(a, from, to)
        == number_at(head, from, to) by {
        assert(a.subrange(from, to) =~= head.subrange(from, to));
    }
    assert forall|from: int, to: int| 0 <= from <= to <= 19 implies #[trigger] number_at(b, from, to)
        == number_at(head, from, to) by {
        assert(b.subrange(from, to) =~= head.subrange(from, to));
    }
    assert(a.skip(19) =~= zone);
    let tail = b.skip(19);
    let n = f.len() as int;
    assert(tail =~= seq!['.'] + f + zone);
    assert(tail.skip(1) =~= f + zone);
    lemma_digit_run(tail.skip(1), n);
    assert(tail.skip(1 + n) =~= zone);
    assert(tail.subrange(1, 1 + n) =~= f);
}

/// A date and a time in UTC, written `YYYY-MM-DDThh:mm:ssZ`, is a timestamp exactly where the
/// calendar has the day and the clock shows the time, and gives the days since 1970-01-01, the
/// hours, the minutes and the seconds in milliseconds.
#[verifier::rlimit(50)]
pub proof fn law_date_and_time(t: Seq<char>)
    requires
        t.len() == 20,
        t[19] == 'Z',
    ensures
        ({
            let n = |i: int| t[i] as int - '0' as int;
            let y = n(0) * 1000 + n(1) * 100 + n(2) * 10 + n(3);
            let (m, d) = (n(5) * 10 + n(6), n(8) * 10 + n(9));
            let (hour, minute, second) = (
                n(11) * 10 + n(12),
                n(14) * 10 + n(15),
                n(17) * 10 + n(18),
            );
            let written = {
                &&& t[4] == '-' && t[7] == '-' && t[10] == 'T' && t[13] == ':' && t[16] == ':'
                &&& 0 <= n(0) <= 9 && 0 <= n(1) <= 9 && 0 <= n(2) <= 9 && 0 <= n(3) <= 9
                &&& 0 <= n(5) <= 9 && 0 <= n(6) <= 9 && 0 <= n(8) <= 9 && 0 <= n(9) <= 9
                &&& 0 <= n(11) <= 9 && 0 <= n(12) <= 9 && 0 <= n(14) <= 9 && 0 <= n(15) <= 9
                &&& 0 <= n(17) <= 9 && 0 <= n(18) <= 9
                &&& crate::calendar::valid_date(y, m, d)
                &&& hour < 24 && minute < 60 && second < 60
            };
            rfc3339_millis(t) == if written {
                Some(
                    crate::calendar::epoch_days(y, m, d) * 86_400_000 + hour * 3_600_000 + minute
                        * 60_000 + second * 1000,
                )
            } else {
                None
            }
        }),
{
    let (head, zone) = (t.take(19), seq!['Z']);
    assert(t =~= head + zone);
    assert(t.skip(19) =~= zone);
    lemma_two_digits(t, 5);
    lemma_two_digits(t, 8);
    lemma_two_digits(t, 11);
    lemma_two_digits(t, 14);
    lemma_two_digits(t, 17);
    reveal_with_fuel(crate::text::digits_value, 5);
    let y = t.subrange(0, 4);
    assert(y[0] == t[0] && y[1] == t[1] && y[2] == t[2] && y[3] == t[3]);
    assert(y.drop_last().drop_last().drop_last().drop_last() =~= Seq::empty());
    assert(crate::text::all_digits(y) <==> ('0' <= t[0] <= '9' && '0' <= t[1] <= '9' && '0' <= t[2]
        <= '9' && '0' <= t[3] <= '9'));
}

/// A fraction of a second adds its tenths, hundredths and thousandths; what lies below a
/// millisecond is cut off. It has one to nine digits. `zone` is whatever follows.
#[verifier::rlimit(50)]
pub proof fn law_fraction_adds_milliseconds(head: Seq<char>, f: Seq<char>, zone: Seq<char>)
    requires
        head.len() == 19,
        forall|i: int| 0 <= i < f.len() ==> '0' <= #[trigger] f[i] <= '9',
        zone.len() > 0,
        !('0' <= zone[0] <= '9'),
        zone[0] != '.',
    ensures
        rfc3339_millis(head + seq!['.'] + f + zone) == if 1 <= f.len() <= 9 {
            let n = |i: int| if i < f.len() { f[i] as int - '0' as int } else { 0 };
            match rfc3339_millis(head + zone) {
                Some(t) => Some(t + n(0) * 100 + n(1) * 10 + n(2)),
                None => None,
            }
        } else {
            None
        },
{
    lemma_parts(head, f, zone);
    reveal_with_fuel(crate::text::digits_value, 4);
    if f.len() == 1 {
        assert(f.drop_last() =~= Seq::empty());
    } else if f.len() == 2 {
        assert(f.drop_last().drop_last() =~= Seq::empty());
    } else if f.len() > 2 {
        let g = f.take(3);
        assert(g[0] == f[0] && g[1] == f[1] && g[2] == f[2]);
        assert(g.drop_last().drop_last().drop_last() =~= Seq::empty());
    }
}

/// The seconds of a zone that is written with a sign and four digits.
proof fn lemma_offset_seconds(sign: char, a: char, b: char, c: char, d: char)
    requires
        sign == '+' || sign == '-',
        '0' <= a <= '9',
        '0' <= b <= '9',
        '0' <= c <= '9',
        '0' <= d <= '9',
    ensures
        ({
            let hours = (a as int - 48) * 10 + (b as int - 48);
            let minutes = (c as int - 48) * 10 + (d as int - 48);
            zone_seconds(seq![sign, a, b, ':', c, d]) == if hours <= 23 && minutes <= 59 {
                Some(
                    if sign == '-' {
                        -(hours * 3600 + minutes * 60)
                    } else {
                        hours * 3600 + minutes * 60
                    },
                )
            } else {
                None
            }
        }),
{
    lemma_two_digits(seq![sign, a, b, ':', c, d], 1);
    lemma_two_digits(seq![sign, a, b, ':', c, d], 4);
}

/// The milliseconds of a timestamp whose date and time are at the start of `head`, and whose
/// fraction and zone add `rest`.
spec fn assembled(head: Seq<char>, rest: Option<int>) -> Option<int> {
    match (date_days(head), clock_seconds(head), rest) {
        (Some(days), Some(seconds), Some(n)) => Some((days * 86400 + seconds) * 1000 + n),
        _ => None,
    }
}

/// A timestamp is put together from its parts.
proof fn lemma_assembled(head: Seq<char>, f: Seq<char>, zone: Seq<char>)
    requires
        head.len() == 19,
        forall|i: int| 0 <= i < f.len() ==> crate::text::is_digit(#[trigger] f[i]),
        zone.len() > 0,
        !crate::text::is_digit(zone[0]),
        zone[0] != '.',
    ensures
        rfc3339_millis(head + zone) == assembled(
            head,
            match zone_seconds(zone) {
                Some(z) => Some(-z * 1000),
                None => None,
            },
        ),
        rfc3339_millis(head + seq!['.'] + f + zone) == assembled(
            head,
            match zone_seconds(zone) {
                Some(z) => if 1 <= f.len() <= 9 {
                    Some(fraction_millis(f) - z * 1000)
                } else {
                    None
                },
                None => None,
            },
        ),
{
    lemma_parts(head, f, zone);
}

/// A zone shifts the instant that `Z` names by its seconds; without a zone there is no timestamp.
#[verifier::rlimit(50)]
proof fn lemma_zone_shifts(head: Seq<char>, zone: Seq<char>)
    requires
        head.len() == 19 || (head.len() >= 20 && head[19] == '.' && forall|i: int|
            20 <= i < head.len() ==> '0' <= #[trigger] head[i] <= '9'),
        zone.len() > 0,
        !crate::text::is_digit(zone[0]),
        zone[0] != '.',
    ensures
        rfc3339_millis(head + zone) == match (rfc3339_millis(head + seq!['Z']), zone_seconds(zone)) {
            (Some(t), Some(z)) => Some(t - z * 1000),
            _ => None,
        },
{
    let utc = seq!['Z'];
    assert(zone_seconds(utc) == Some(0int));
    if head.len() == 19 {
        lemma_assembled(head, Seq::empty(), zone);
        lemma_assembled(head, Seq::empty(), utc);
    } else {
        let (date, f) = (head.take(19), head.skip(20));
        assert forall|i: int| 0 <= i < f.len() implies crate::text::is_digit(#[trigger] f[i]) by {
            assert(f[i] == head[i + 20]);
        }
        assert(date + seq!['.'] + f =~= head);
        lemma_assembled(date, f, zone);
        lemma_assembled(date, f, utc);
    }
}

/// A zone `+hh:mm` names an instant earlier than `Z` does by that many hours and minutes, and
/// `-hh:mm` one later by as many, so that the two shift by opposite amounts. More than 23 hours or
/// 59 minutes are no zone, and `z` is `Z`. `head` is the date, the time and, where there is one,
/// the fraction; the digits are `a` to `d`.
#[verifier::rlimit(50)]
pub proof fn law_offset_shifts_the_instant(head: Seq<char>, a: char, b: char, c: char, d: char)
    requires
        head.len() == 19 || (head.len() >= 20 && head[19] == '.' && forall|i: int|
            20 <= i < head.len() ==> '0' <= #[trigger] head[i] <= '9'),
        '0' <= a <= '9',
        '0' <= b <= '9',
        '0' <= c <= '9',
        '0' <= d <= '9',
    ensures
        ({
            let hours = (a as int - '0' as int) * 10 + (b as int - '0' as int);
            let minutes = (c as int - '0' as int) * 10 + (d as int - '0' as int);
            let shift = (hours * 3600 + minutes * 60) * 1000;
            let utc = rfc3339_millis(head + seq!['Z']);
            let fits = hours <= 23 && minutes <= 59;
            &&& rfc3339_millis(head + seq!['+', a, b, ':', c, d]) == match utc {
                Some(t) => if fits {
                    Some(t - shift)
                } else {
                    None
                },
                None => None,
            }
            &&& rfc3339_millis(head + seq!['-', a, b, ':', c, d]) == match utc {
                Some(t) => if fits {
                    Some(t + shift)
                } else {
                    None
                },
                None => None,
            }
            &&& rfc3339_millis(head + seq!['z']) == utc
        }),
{
    lemma_offset_seconds('+', a, b, c, d);
    lemma_offset_seconds('-', a, b, c, d);
    lemma_zone_shifts(head, seq!['+', a, b, ':', c, d]);
    lemma_zone_shifts(head, seq!['-', a, b, ':', c, d]);
    lemma_zone_shifts(head, seq!['z']);
}

/// The form of a zone that starts at the index `k` of `t`.
proof fn lemma_zone_form(t: Seq<char>, k: int)
    requires
        0 <= k <= t.len(),
        zone_seconds(t.skip(k)) is Some,
    ensures
        k < t.len(),
        ({
            ||| t.len() == k + 1 && (t[k] == 'Z' || t[k] == 'z')
            ||| {
                &&& t.len() == k + 6
                &&& t[k] == '+' || t[k] == '-'
                &&& t[k + 3] == ':'
                &&& '0' <= t[k + 1] <= '9' && '0' <= t[k + 2] <= '9'
                &&& '0' <= t[k + 4] <= '9' && '0' <= t[k + 5] <= '9'
            }
        }),
{
    let zone = t.skip(k);
    if zone.len() == 6 {
        lemma_two_digits(zone, 1);
        lemma_two_digits(zone, 4);
    }
}

/// What a timestamp must look like after its first 19 characters: at the index `k` there is a zone,
/// which ends it, and before that nothing, or a point and one to nine digits.
pub proof fn law_timestamp_ends_with_a_zone(t: Seq<char>) -> (k: int)
    requires
        rfc3339_millis(t) is Some,
    ensures
        19 <= k < t.len(),
        k == 19 || (t[19] == '.' && 21 <= k <= 29 && forall|i: int|
            20 <= i < k ==> '0' <= #[trigger] t[i] <= '9'),
        ({
            ||| t.len() == k + 1 && (t[k] == 'Z' || t[k] == 'z')
            ||| {
                &&& t.len() == k + 6
                &&& t[k] == '+' || t[k] == '-'
                &&& t[k + 3] == ':'
                &&& '0' <= t[k + 1] <= '9' && '0' <= t[k + 2] <= '9'
                &&& '0' <= t[k + 4] <= '9' && '0' <= t[k + 5] <= '9'
            }
        }),
{
    let tail = t.skip(19);
    assert(tail[0] == t[19]);
    if tail[0] == '.' {
        let run = tail.skip(1);
        let n = digit_run(run);
        lemma_run_is_digits(run);
        assert(tail.skip(1 + n) =~= t.skip(20 + n));
        assert forall|i: int| 20 <= i < 20 + n implies '0' <= #[trigger] t[i] <= '9' by {
            assert(run[i - 20] == t[i]);
            assert(crate::text::is_digit(run[i - 20]));
        }
        lemma_zone_form(t, 20 + n);
        20 + n
    } else {
        lemma_zone_form(t, 19);
        19
    }
}

/// A timestamp is a number of seconds, which comes to one thousand times as many milliseconds where
/// these fit in 64 bits, or a text in the form of RFC 3339; anything else is none, and what is said
/// of it depends on its kind. In a query, a text that writes a number of seconds counts as one.
pub proof fn law_seconds_and_texts(v: JsonView, t: Seq<char>)
    ensures
        timestamp_millis(v) == match v {
            JsonView::Integer(n) => if n < i64::MIN || n > i64::MAX {
                Err("must be an integer count of seconds"@)
            } else if n * 1000 < i64::MIN || n * 1000 > i64::MAX {
                Err("timestamp out of range"@)
            } else {
                Ok((n * 1000) as i64)
            },
            JsonView::Real(_) => Err("must be an integer count of seconds"@),
            JsonView::Text(s) => match rfc3339_millis(s) {
                Some(n) => Ok(n as i64),
                None => Err("invalid RFC3339 timestamp: "@ + crate::text::quoted(s)),
            },
            _ => Err("must be an RFC3339 string or unix seconds number"@),
        },
        crate::text::integer_value(t) matches Some(n) ==> i64::MIN <= n <= i64::MAX ==> param_millis(
            t,
        ) == if i64::MIN <= n * 1000 <= i64::MAX {
            Ok::<i64, Seq<char>>((n * 1000) as i64)
        } else {
            Err("timestamp out of range"@)
        },
        !(crate::text::integer_value(t) matches Some(n) && i64::MIN <= n <= i64::MAX)
            ==> param_millis(t) == match rfc3339_millis(t) {
            Some(n) => Ok::<i64, Seq<char>>(n as i64),
            None => Err("invalid RFC3339 timestamp: "@ + crate::text::quoted(t)),
        },
{
}

} // verus!

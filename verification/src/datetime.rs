//! Calendar timestamps in the fixed `YYYY-MM-DD HH:MM:SS` format used by
//! the tabular attachment: rendering, strict parsing, and ordering.

use vstd::prelude::*;

use crate::text::{byte_is_digit, digit_byte, digit_val, is_digit};

verus! {

/// A timestamp with second precision and no time zone.
#[derive(PartialEq, Eq, Structural, Clone, Copy, Debug)]
pub struct Timestamp {
    pub year: u32,
    pub month: u32,
    pub day: u32,
    pub hour: u32,
    pub minute: u32,
    pub second: u32,
}

/// Gregorian leap-year rule.
pub open spec fn is_leap_year(y: nat) -> bool {
    (y % 4 == 0 && y % 100 != 0) || y % 400 == 0
}

/// Number of days in a month of the Gregorian calendar.
pub open spec fn days_in_month(y: nat, m: nat) -> nat {
    if m == 2 {
        if is_leap_year(y) {
            29
        } else {
            28
        }
    } else if m == 4 || m == 6 || m == 9 || m == 11 {
        30
    } else {
        31
    }
}

/// A calendar-valid timestamp that fits the four-digit-year format.
pub open spec fn ts_valid(t: Timestamp) -> bool {
    &&& t.year <= 9999
    &&& 1 <= t.month <= 12
    &&& 1 <= t.day <= days_in_month(t.year as nat, t.month as nat)
    &&& t.hour <= 23
    &&& t.minute <= 59
    &&& t.second <= 59
}

/// The 19 bytes `YYYY-MM-DD HH:MM:SS` for a timestamp (each field zero
/// padded; byte 45 is `-`, 32 is the space, 58 is `:`).  Opaque: callers
/// rely on `lemma_ts_round_trip` and `lemma_ts_bytes_classes` instead of
/// the raw byte list.
#[verifier::opaque]
pub open spec fn ts_bytes(t: Timestamp) -> Seq<u8> {
    seq![
        digit_byte((t.year / 1000) as nat),
        digit_byte((t.year / 100) as nat),
        digit_byte((t.year / 10) as nat),
        digit_byte(t.year as nat),
        45u8,
        digit_byte((t.month / 10) as nat),
        digit_byte(t.month as nat),
        45u8,
        digit_byte((t.day / 10) as nat),
        digit_byte(t.day as nat),
        32u8,
        digit_byte((t.hour / 10) as nat),
        digit_byte(t.hour as nat),
        58u8,
        digit_byte((t.minute / 10) as nat),
        digit_byte(t.minute as nat),
        58u8,
        digit_byte((t.second / 10) as nat),
        digit_byte(t.second as nat),
    ]
}

/// Whether 19 bytes have the digit-and-separator shape of the format.
pub open spec fn ts_shape(s: Seq<u8>) -> bool {
    &&& s.len() == 19
    &&& is_digit(s[0]) && is_digit(s[1]) && is_digit(s[2]) && is_digit(s[3])
    &&& s[4] == 45u8
    &&& is_digit(s[5]) && is_digit(s[6])
    &&& s[7] == 45u8
    &&& is_digit(s[8]) && is_digit(s[9])
    &&& s[10] == 32u8
    &&& is_digit(s[11]) && is_digit(s[12])
    &&& s[13] == 58u8
    &&& is_digit(s[14]) && is_digit(s[15])
    &&& s[16] == 58u8
    &&& is_digit(s[17]) && is_digit(s[18])
}

/// The timestamp read off bytes of the right shape, before calendar checks.
pub open spec fn ts_of(s: Seq<u8>) -> Timestamp
    recommends
        ts_shape(s),
{
    Timestamp {
        year: (digit_val(s[0]) * 1000 + digit_val(s[1]) * 100 + digit_val(s[2]) * 10 + digit_val(
            s[3],
        )) as u32,
        month: (digit_val(s[5]) * 10 + digit_val(s[6])) as u32,
        day: (digit_val(s[8]) * 10 + digit_val(s[9])) as u32,
        hour: (digit_val(s[11]) * 10 + digit_val(s[12])) as u32,
        minute: (digit_val(s[14]) * 10 + digit_val(s[15])) as u32,
        second: (digit_val(s[17]) * 10 + digit_val(s[18])) as u32,
    }
}

/// Strict parse of the fixed format: the shape must match exactly and the
/// fields must name a real calendar time.
pub open spec fn parse_ts(s: Seq<u8>) -> Option<Timestamp> {
    if ts_shape(s) && ts_valid(ts_of(s)) {
        Some(ts_of(s))
    } else {
        None
    }
}

/// `a` is at or before `b` in time.
pub open spec fn ts_le(a: Timestamp, b: Timestamp) -> bool {
    if a.year != b.year {
        a.year < b.year
    } else if a.month != b.month {
        a.month < b.month
    } else if a.day != b.day {
        a.day < b.day
    } else if a.hour != b.hour {
        a.hour < b.hour
    } else if a.minute != b.minute {
        a.minute < b.minute
    } else {
        a.second <= b.second
    }
}

impl Timestamp {
    /// Chronological comparison, equal to the spec-level order.
    pub fn le(&self, other: &Timestamp) -> (r: bool)
        ensures
            r == ts_le(*self, *other),
    {
        if self.year != other.year {
            self.year < other.year
        } else if self.month != other.month {
            self.month < other.month
        } else if self.day != other.day {
            self.day < other.day
        } else if self.hour != other.hour {
            self.hour < other.hour
        } else if self.minute != other.minute {
            self.minute < other.minute
        } else {
            self.second <= other.second
        }
    }
}

/// Executable leap-year rule.
pub fn leap_year(y: u32) -> (r: bool)
    ensures
        r == is_leap_year(y as nat),
{
    (y % 4 == 0 && y % 100 != 0) || y % 400 == 0
}

/// Executable month length.
pub fn month_days(y: u32, m: u32) -> (r: u32)
    ensures
        r == days_in_month(y as nat, m as nat),
{
    if m == 2 {
        if leap_year(y) {
            29
        } else {
            28
        }
    } else if m == 4 || m == 6 || m == 9 || m == 11 {
        30
    } else {
        31
    }
}

/// Append the two zero-padded digits of `n < 100`.
fn push_two_digits(out: &mut Vec<u8>, n: u32)
    requires
        n < 100,
    ensures
        final(out)@ == old(out)@ + seq![digit_byte((n / 10) as nat), digit_byte(n as nat)],
{
    out.push(48 + (n / 10) as u8);
    out.push(48 + (n % 10) as u8);
    proof {
        assert(n / 10 < 10);
        assert((n / 10) as nat % 10 == (n / 10) as nat);
        assert(out@ =~= old(out)@ + seq![digit_byte((n / 10) as nat), digit_byte(n as nat)]);
    }
}

/// Render a timestamp in the fixed `YYYY-MM-DD HH:MM:SS` format.
pub fn render_ts(t: &Timestamp) -> (r: Vec<u8>)
    requires
        ts_valid(*t),
    ensures
        r@ == ts_bytes(*t),
{
    let mut out: Vec<u8> = Vec::new();
    out.push(48 + (t.year / 1000) as u8);
    out.push(48 + ((t.year / 100) % 10) as u8);
    out.push(48 + ((t.year / 10) % 10) as u8);
    out.push(48 + (t.year % 10) as u8);
    out.push(45);
    proof {
        assert(t.year / 1000 < 10);
        assert((t.year / 1000) as nat % 10 == (t.year / 1000) as nat);
    }
    push_two_digits(&mut out, t.month);
    out.push(45);
    push_two_digits(&mut out, t.day);
    out.push(32);
    push_two_digits(&mut out, t.hour);
    out.push(58);
    push_two_digits(&mut out, t.minute);
    out.push(58);
    push_two_digits(&mut out, t.second);
    proof {
        reveal(ts_bytes);
        assert(out@ =~= ts_bytes(*t));
    }
    out
}

/// Combine two digit bytes into their two-digit value.
fn two_digits(hi: u8, lo: u8) -> (r: u32)
    requires
        is_digit(hi),
        is_digit(lo),
    ensures
        r == digit_val(hi) * 10 + digit_val(lo),
        r < 100,
{
    ((hi - 48) as u32) * 10 + ((lo - 48) as u32)
}

/// Strict executable parse of the fixed format, equal to the spec parse.
pub fn parse_ts_bytes(s: &Vec<u8>) -> (r: Option<Timestamp>)
    ensures
        r == parse_ts(s@),
{
    if s.len() != 19 {
        return None;
    }
    if !(byte_is_digit(s[0]) && byte_is_digit(s[1]) && byte_is_digit(s[2]) && byte_is_digit(s[3])
        && s[4] == 45 && byte_is_digit(s[5]) && byte_is_digit(s[6]) && s[7] == 45 && byte_is_digit(
        s[8],
    ) && byte_is_digit(s[9]) && s[10] == 32 && byte_is_digit(s[11]) && byte_is_digit(s[12]) && s[13]
        == 58 && byte_is_digit(s[14]) && byte_is_digit(s[15]) && s[16] == 58 && byte_is_digit(s[17])
        && byte_is_digit(s[18])) {
        return None;
    }
    let d0 = (s[0] - 48) as u32;
    let d1 = (s[1] - 48) as u32;
    let d2 = (s[2] - 48) as u32;
    let d3 = (s[3] - 48) as u32;
    let year = d0 * 1000 + d1 * 100 + d2 * 10 + d3;
    let month = two_digits(s[5], s[6]);
    let day = two_digits(s[8], s[9]);
    let hour = two_digits(s[11], s[12]);
    let minute = two_digits(s[14], s[15]);
    let second = two_digits(s[17], s[18]);
    let t = Timestamp { year, month, day, hour, minute, second };
    proof {
        assert(ts_shape(s@));
        assert(t == ts_of(s@));
    }
    if month < 1 || month > 12 {
        return None;
    }
    if day < 1 || day > month_days(year, month) {
        return None;
    }
    if hour > 23 || minute > 59 || second > 59 {
        return None;
    }
    proof {
        assert(year <= 9999);
        assert(ts_valid(t));
    }
    Some(t)
}

/// Parsing what `ts_bytes` rendered gives the timestamp back.
pub proof fn lemma_ts_round_trip(t: Timestamp)
    requires
        ts_valid(t),
    ensures
        parse_ts(ts_bytes(t)) == Some(t),
{
    reveal(ts_bytes);
    let s = ts_bytes(t);
    assert(ts_shape(s));
    lemma_two_digit_val(t.month as nat);
    lemma_two_digit_val(t.day as nat);
    lemma_two_digit_val(t.hour as nat);
    lemma_two_digit_val(t.minute as nat);
    lemma_two_digit_val(t.second as nat);
    lemma_four_digit_val(t.year as nat);
    assert(ts_of(s) == t);
}

/// Two zero-padded digits read back as the value, for values under 100.
proof fn lemma_two_digit_val(n: nat)
    requires
        n < 100,
    ensures
        digit_val(digit_byte(n / 10)) * 10 + digit_val(digit_byte(n)) == n,
{
    assert(n / 10 < 10);
    assert((n / 10) % 10 == n / 10);
    assert(digit_val(digit_byte(n / 10)) == n / 10);
    assert(digit_val(digit_byte(n)) == n % 10);
}

/// Four zero-padded digits read back as the value, for values under 10000.
proof fn lemma_four_digit_val(n: nat)
    requires
        n < 10000,
    ensures
        digit_val(digit_byte(n / 1000)) * 1000 + digit_val(digit_byte(n / 100)) * 100 + digit_val(
            digit_byte(n / 10),
        ) * 10 + digit_val(digit_byte(n)) == n,
{
    assert(n / 1000 < 10);
    assert((n / 1000) % 10 == n / 1000);
    assert(digit_val(digit_byte(n / 1000)) == n / 1000);
    assert(digit_val(digit_byte(n / 100)) == (n / 100) % 10);
    assert(digit_val(digit_byte(n / 10)) == (n / 10) % 10);
    assert(digit_val(digit_byte(n)) == n % 10);
    assert(n == 10 * (n / 10) + n % 10);
    assert(n / 10 == 10 * (n / 100) + (n / 10) % 10);
    assert(n / 100 == 10 * (n / 1000) + (n / 100) % 10);
}

/// Every byte of a rendered timestamp is a digit or one of the three
/// separators; in particular none is a comma, line feed or carriage return.
pub proof fn lemma_ts_bytes_classes(t: Timestamp)
    ensures
        ts_bytes(t).len() == 19,
        forall|i: int|
            0 <= i < 19 ==> (is_digit(#[trigger] ts_bytes(t)[i]) || ts_bytes(t)[i] == 45u8
                || ts_bytes(t)[i] == 32u8 || ts_bytes(t)[i] == 58u8),
        is_digit(ts_bytes(t)[18]),
{
    reveal(ts_bytes);
    assert forall|i: int|
        0 <= i < 19 implies (is_digit(#[trigger] ts_bytes(t)[i]) || ts_bytes(t)[i] == 45u8
        || ts_bytes(t)[i] == 32u8 || ts_bytes(t)[i] == 58u8) by {
        assert(forall|m: nat| is_digit(#[trigger] digit_byte(m)));
    }
}

} // verus!

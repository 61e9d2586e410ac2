use vstd::prelude::*;
use crate::errors::SigError;

verus! {

/// A UTC instant at second precision, the only time representation the
/// protocol understands. Its textual form is the fixed `YYYYMMDD'T'HHMMSS'Z'`
/// layout carried by the `X-Amz-Date` header.
#[derive(Clone, Copy, Debug, PartialEq, Eq, Structural)]
pub struct Timestamp {
    pub year: u32,
    pub month: u32,
    pub day: u32,
    pub hour: u32,
    pub minute: u32,
    pub second: u32,
}

// ---------------------------------------------------------------------------
// Validity
// ---------------------------------------------------------------------------

pub open spec fn is_leap_year(y: int) -> bool {
    (y % 4 == 0 && y % 100 != 0) || y % 400 == 0
}

pub open spec fn spec_days_in_month(y: int, m: int) -> int {
    if m == 2 {
        if is_leap_year(y) {
            29
        } else {
            28
        }
    } else if m == 4 || m == 6 || m == 9 || m == 11 {
        30
    } else {
        31
    }
}

/// A timestamp the engine accepts: a real calendar date between 1970 and
/// 9999 with in-range time-of-day fields.
pub open spec fn ts_valid(ts: Timestamp) -> bool {
    &&& 1970 <= ts.year <= 9999
    &&& 1 <= ts.month <= 12
    &&& 1 <= ts.day <= spec_days_in_month(ts.year as int, ts.month as int)
    &&& ts.hour <= 23
    &&& ts.minute <= 59
    &&& ts.second <= 59
}

pub fn days_in_month(y: u32, m: u32) -> (r: u32)
    ensures
        r == spec_days_in_month(y as int, m as int),
{
    if m == 2 {
        if (y % 4 == 0 && y % 100 != 0) || y % 400 == 0 {
            29
        } else {
            28
        }
    } else if m == 4 || m == 6 || m == 9 || m == 11 {
        30
    } else {
        31
    }
}

// ---------------------------------------------------------------------------
// Rendering
// ---------------------------------------------------------------------------

pub open spec fn digit_byte(d: int) -> u8 {
    (48 + d) as u8
}

pub open spec fn two_digits(n: int) -> Seq<u8> {
    seq![digit_byte(n / 10), digit_byte(n % 10)]
}

pub open spec fn four_digits(n: int) -> Seq<u8> {
    two_digits(n / 100) + two_digits(n % 100)
}

/// The `YYYYMMDD` date part of the textual form.
pub open spec fn date8_spec(ts: Timestamp) -> Seq<u8> {
    four_digits(ts.year as int) + two_digits(ts.month as int) + two_digits(ts.day as int)
}

/// The full `YYYYMMDD'T'HHMMSS'Z'` textual form.
pub open spec fn render_ts_spec(ts: Timestamp) -> Seq<u8> {
    date8_spec(ts) + seq![84u8] + two_digits(ts.hour as int) + two_digits(ts.minute as int)
        + two_digits(ts.second as int) + seq![90u8]
}

fn push_two_digits(dst: &mut Vec<u8>, n: u32)
    requires
        n <= 99,
    ensures
        final(dst)@ == old(dst)@ + two_digits(n as int),
{
    let ghost d0 = dst@;
    dst.push((48 + n / 10) as u8);
    dst.push((48 + n % 10) as u8);
    proof {
        assert(dst@ =~= d0 + two_digits(n as int));
    }
}

fn push_four_digits(dst: &mut Vec<u8>, n: u32)
    requires
        n <= 9999,
    ensures
        final(dst)@ == old(dst)@ + four_digits(n as int),
{
    push_two_digits(dst, n / 100);
    push_two_digits(dst, n % 100);
}

/// Renders a valid timestamp in the fixed textual form.
pub fn render_timestamp(ts: &Timestamp) -> (r: Vec<u8>)
    requires
        ts_valid(*ts),
    ensures
        r@ == render_ts_spec(*ts),
        r@.len() == 16,
{
    let mut r: Vec<u8> = Vec::new();
    push_four_digits(&mut r, ts.year);
    push_two_digits(&mut r, ts.month);
    push_two_digits(&mut r, ts.day);
    r.push(84);
    push_two_digits(&mut r, ts.hour);
    push_two_digits(&mut r, ts.minute);
    push_two_digits(&mut r, ts.second);
    r.push(90);
    proof {
        assert(r@ =~= render_ts_spec(*ts));
    }
    r
}

/// Renders the `YYYYMMDD` date part of a valid timestamp.
pub fn render_date8(ts: &Timestamp) -> (r: Vec<u8>)
    requires
        ts_valid(*ts),
    ensures
        r@ == date8_spec(*ts),
{
    let mut r: Vec<u8> = Vec::new();
    push_four_digits(&mut r, ts.year);
    push_two_digits(&mut r, ts.month);
    push_two_digits(&mut r, ts.day);
    proof {
        assert(r@ =~= date8_spec(*ts));
    }
    r
}

/// The rendered date is eight decimal digit bytes.
pub proof fn lemma_date8_digits(ts: Timestamp)
    requires
        ts_valid(ts),
    ensures
        date8_spec(ts).len() == 8,
        forall|t: int| 0 <= t < 8 ==> 48 <= #[trigger] date8_spec(ts)[t] <= 57,
{
    let y = ts.year as int;
    assert(0 <= y / 100 <= 99);
    assert(0 <= y % 100 <= 99);
    assert(0 <= y / 100 / 10 <= 9 && 0 <= y / 100 % 10 <= 9);
    assert(0 <= y % 100 / 10 <= 9 && 0 <= y % 100 % 10 <= 9);
    let m = ts.month as int;
    let d = ts.day as int;
    assert(0 <= m / 10 <= 9 && 0 <= m % 10 <= 9);
    assert(0 <= d / 10 <= 9 && 0 <= d % 10 <= 9);
}

// ---------------------------------------------------------------------------
// Parsing
// ---------------------------------------------------------------------------

pub open spec fn is_digit(b: u8) -> bool {
    48 <= b && b <= 57
}

pub open spec fn dval(b: u8) -> int {
    b - 48
}

/// The input has the shape `DDDDDDDD'T'DDDDDD'Z'` (sixteen bytes).
pub open spec fn ts_shape_ok(s: Seq<u8>) -> bool {
    &&& s.len() == 16
    &&& forall|i: int| 0 <= i < 8 ==> is_digit(#[trigger] s[i])
    &&& s[8] == 84
    &&& forall|i: int| 9 <= i < 15 ==> is_digit(#[trigger] s[i])
    &&& s[15] == 90
}

/// The field values read off a well-shaped input.
pub open spec fn decode_ts(s: Seq<u8>) -> Timestamp {
    Timestamp {
        year: (1000 * dval(s[0]) + 100 * dval(s[1]) + 10 * dval(s[2]) + dval(s[3])) as u32,
        month: (10 * dval(s[4]) + dval(s[5])) as u32,
        day: (10 * dval(s[6]) + dval(s[7])) as u32,
        hour: (10 * dval(s[9]) + dval(s[10])) as u32,
        minute: (10 * dval(s[11]) + dval(s[12])) as u32,
        second: (10 * dval(s[13]) + dval(s[14])) as u32,
    }
}

/// What parsing returns: the decoded timestamp exactly when the input is
/// well-shaped and decodes to a valid instant, and nothing otherwise.
pub open spec fn parse_ts_spec(s: Seq<u8>) -> Option<Timestamp> {
    if ts_shape_ok(s) && ts_valid(decode_ts(s)) {
        Some(decode_ts(s))
    } else {
        None
    }
}

fn read_two(s: &Vec<u8>, i: usize) -> (r: Option<u32>)
    requires
        i + 2 <= s@.len(),
    ensures
        match r {
            Some(v) => is_digit(s@[i as int]) && is_digit(s@[i + 1]) && v == 10 * dval(
                s@[i as int],
            ) + dval(s@[i + 1]),
            None => !(is_digit(s@[i as int]) && is_digit(s@[i + 1])),
        },
{
    let n = s.len();
    assert(i + 2 <= n);
    let a = s[i];
    let b = s[i + 1];
    if 48 <= a && a <= 57 && 48 <= b && b <= 57 {
        Some(10 * ((a - 48) as u32) + ((b - 48) as u32))
    } else {
        None
    }
}

/// Parses the fixed `YYYYMMDD'T'HHMMSS'Z'` form. Returns the decoded
/// timestamp exactly on well-shaped, calendar-valid input; every other input
/// yields `TimeFormatError`.
pub fn parse_timestamp(s: &Vec<u8>) -> (r: Result<Timestamp, SigError>)
    ensures
        r == match parse_ts_spec(s@) {
            Some(ts) => Result::<Timestamp, SigError>::Ok(ts),
            None => Result::<Timestamp, SigError>::Err(SigError::TimeFormatError),
        },
{
    if s.len() != 16 {
        return Err(SigError::TimeFormatError);
    }
    if s[8] != 84 || s[15] != 90 {
        return Err(SigError::TimeFormatError);
    }
    let hi = match read_two(s, 0) {
        Some(v) => v,
        None => {
            return Err(SigError::TimeFormatError);
        },
    };
    let lo = match read_two(s, 2) {
        Some(v) => v,
        None => {
            return Err(SigError::TimeFormatError);
        },
    };
    let year = 100 * hi + lo;
    let month = match read_two(s, 4) {
        Some(v) => v,
        None => {
            return Err(SigError::TimeFormatError);
        },
    };
    let day = match read_two(s, 6) {
        Some(v) => v,
        None => {
            return Err(SigError::TimeFormatError);
        },
    };
    let hour = match read_two(s, 9) {
        Some(v) => v,
        None => {
            return Err(SigError::TimeFormatError);
        },
    };
    let minute = match read_two(s, 11) {
        Some(v) => v,
        None => {
            return Err(SigError::TimeFormatError);
        },
    };
    let second = match read_two(s, 13) {
        Some(v) => v,
        None => {
            return Err(SigError::TimeFormatError);
        },
    };
    let ts = Timestamp { year, month, day, hour, minute, second };
    proof {
        assert(ts_shape_ok(s@));
        assert(ts == decode_ts(s@));
    }
    if !(1970 <= year && month >= 1 && month <= 12 && day >= 1 && day <= days_in_month(year, month)
        && hour <= 23 && minute <= 59 && second <= 59) {
        return Err(SigError::TimeFormatError);
    }
    Ok(ts)
}

/// Rendering then parsing gives back the same timestamp: the textual form is
/// a faithful code for valid instants.
pub proof fn lemma_parse_render_round_trip(ts: Timestamp)
    requires
        ts_valid(ts),
    ensures
        parse_ts_spec(render_ts_spec(ts)) == Some(ts),
{
    let s = render_ts_spec(ts);
    let y = ts.year as int;
    assert(0 <= y / 100 <= 99);
    assert(0 <= y % 100 <= 99);
    assert(s[0] == digit_byte(y / 100 / 10) && s[1] == digit_byte(y / 100 % 10) && s[2]
        == digit_byte(y % 100 / 10) && s[3] == digit_byte(y % 100 % 10));
    assert(ts_shape_ok(s));
    let d = decode_ts(s);
    assert(1000 * dval(s[0]) + 100 * dval(s[1]) + 10 * dval(s[2]) + dval(s[3]) == y) by {
        assert(y == 100 * (y / 100) + y % 100);
        assert(y / 100 == 10 * (y / 100 / 10) + y / 100 % 10);
        assert(y % 100 == 10 * (y % 100 / 10) + y % 100 % 10);
    }
    assert(d.year == ts.year);
    assert(d.month == ts.month && d.day == ts.day && d.hour == ts.hour && d.minute == ts.minute
        && d.second == ts.second);
    assert(d == ts);
}

// ---------------------------------------------------------------------------
// Seconds since the epoch
// ---------------------------------------------------------------------------

/// Leap years among the years `1..y` (strictly before `y`).
pub open spec fn leaps_before(y: int) -> int {
    (y - 1) / 4 - (y - 1) / 100 + (y - 1) / 400
}

/// Days of the year strictly before month `m` in year `y`.
pub open spec fn days_before_month(y: int, m: int) -> int {
    let leap: int = if is_leap_year(y) {
        1
    } else {
        0
    };
    if m == 1 {
        0
    } else if m == 2 {
        31
    } else if m == 3 {
        59 + leap
    } else if m == 4 {
        90 + leap
    } else if m == 5 {
        120 + leap
    } else if m == 6 {
        151 + leap
    } else if m == 7 {
        181 + leap
    } else if m == 8 {
        212 + leap
    } else if m == 9 {
        243 + leap
    } else if m == 10 {
        273 + leap
    } else if m == 11 {
        304 + leap
    } else {
        334 + leap
    }
}

/// Days from 1970-01-01 to the given date.
pub open spec fn days_from_epoch(ts: Timestamp) -> int {
    365 * (ts.year - 1970) + leaps_before(ts.year as int) - leaps_before(1970) + days_before_month(
        ts.year as int,
        ts.month as int,
    ) + (ts.day - 1)
}

/// Seconds from 1970-01-01T00:00:00Z to the given instant.
pub open spec fn epoch_secs_spec(ts: Timestamp) -> int {
    days_from_epoch(ts) * 86400 + ts.hour * 3600 + ts.minute * 60 + ts.second
}

/// Every valid timestamp lies within the protocol's calendar:
/// no later than 9999-12-31T23:59:59Z.
pub proof fn lemma_epoch_secs_bound(ts: Timestamp)
    requires
        ts_valid(ts),
    ensures
        0 <= epoch_secs_spec(ts) <= 253402300799,
{
    let y = ts.year as int;
    if y == 9999 {
        assert(leaps_before(9999) == 2424);
        assert(days_from_epoch(ts) <= 2932896);
    } else {
        assert(leaps_before(y) <= 2499);
        assert(days_from_epoch(ts) <= 365 * 8028 + 2499 - 477 + 335 + 30);
    }
    assert(leaps_before(y) >= 477);
    assert(days_from_epoch(ts) >= 0);
}

/// Seconds since the epoch for a valid timestamp, as the signing key
/// derivation consumes it.
pub fn epoch_seconds(ts: &Timestamp) -> (r: u64)
    requires
        ts_valid(*ts),
    ensures
        r == epoch_secs_spec(*ts),
{
    let y = ts.year as u64;
    let leaps = (y - 1) / 4 + (y - 1) / 400 - (y - 1) / 100;
    proof {
        vstd::arithmetic::div_mod::lemma_div_is_ordered_by_denominator((y - 1) as int, 4, 100);
        assert(leaps_before(1970) == 477);
    }
    let leap_now: u64 = if (ts.year % 4 == 0 && ts.year % 100 != 0) || ts.year % 400 == 0 {
        1
    } else {
        0
    };
    let before: u64 = if ts.month == 1 {
        0
    } else if ts.month == 2 {
        31
    } else if ts.month == 3 {
        59 + leap_now
    } else if ts.month == 4 {
        90 + leap_now
    } else if ts.month == 5 {
        120 + leap_now
    } else if ts.month == 6 {
        151 + leap_now
    } else if ts.month == 7 {
        181 + leap_now
    } else if ts.month == 8 {
        212 + leap_now
    } else if ts.month == 9 {
        243 + leap_now
    } else if ts.month == 10 {
        273 + leap_now
    } else if ts.month == 11 {
        304 + leap_now
    } else {
        334 + leap_now
    };
    let days = 365 * (y - 1970) + leaps - 477 + before + (ts.day as u64 - 1);
    assert(days == days_from_epoch(*ts));
    assert(days < 3000000);
    days * 86400 + (ts.hour as u64) * 3600 + (ts.minute as u64) * 60 + (ts.second as u64)
}

} // verus!

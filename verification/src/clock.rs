//! Wall-clock time: milliseconds since the Unix epoch, and the ISO-8601 text
//! of a moment in UTC.

use vstd::prelude::*;
use vstd::arithmetic::div_mod::lemma_hoist_over_denominator;
use vstd::string::*;

verus! {

/// Whether a clock reading is one that the clock can give: whole seconds
/// and less than a second in nanoseconds, or nothing.
pub open spec fn is_reading(reading: Option<(u64, u32)>) -> bool {
    reading.is_some() ==> reading.unwrap().1 < 1000000000
}

/// Reads the system clock with `SystemTime::now` and gives the time since
/// the Unix epoch as whole seconds and the nanoseconds of the running second.
///
/// Trusted: `None` stands for a clock that is set before the epoch, and the
/// nanoseconds are always below one billion.
#[verifier::external_body]
fn unix_time() -> (reading: Option<(u64, u32)>)
    ensures
        is_reading(reading),
{
    match std::time::SystemTime::now().duration_since(std::time::UNIX_EPOCH) {
        Ok(since) => Some((since.as_secs(), since.subsec_nanos())),
        Err(_) => None,
    }
}

/// The milliseconds that a clock reading stands for, cut to 64 bits; zero for
/// a clock that is set before the epoch.
pub open spec fn millis_of(reading: Option<(u64, u32)>) -> u64 {
    match reading {
        Some((secs, nanos)) => ((secs as int * 1000 + nanos as int / 1000000)
            % 0x10000000000000000) as u64,
        None => 0,
    }
}

/// Turns a clock reading into milliseconds since the epoch.
pub fn millis_from_reading(reading: Option<(u64, u32)>) -> (ms: u64)
    ensures
        ms == millis_of(reading),
{
    match reading {
        Some((secs, nanos)) => {
            let wide: u128 = secs as u128 * 1000 + (nanos / 1000000) as u128;
            (wide % 0x10000000000000000) as u64
        },
        None => 0,
    }
}

/// The current time in milliseconds since the Unix epoch; zero if the clock
/// is set before the epoch.
pub fn now_millis() -> (ms: u64)
    ensures
        exists|reading: Option<(u64, u32)>| is_reading(reading) && ms == millis_of(reading),
{
    let reading = unix_time();
    millis_from_reading(reading)
}

/// Whether `y` is a leap year of the Gregorian calendar.
pub open spec fn is_leap_year(y: int) -> bool {
    y % 4 == 0 && (y % 100 != 0 || y % 400 == 0)
}

/// The number of days of month `m` of year `y`.
pub open spec fn days_in_month(y: int, m: int) -> int {
    if m == 2 {
        if is_leap_year(y) {
            29
        } else {
            28
        }
    } else if m == 4 || m == 6 || m == 9 || m == 11 {
        30
    } else {
        31
    }
}

/// The number of days of year `y` that lie before its month `m`.
pub open spec fn days_before_month(y: int, m: int) -> int
    decreases m,
{
    if m <= 1 {
        0
    } else {
        days_before_month(y, m - 1) + days_in_month(y, m - 1)
    }
}

/// The number of leap years among the years before `y`, counted from the
/// year 1.
pub open spec fn leap_years_before(y: int) -> int {
    (y - 1) / 4 - (y - 1) / 100 + (y - 1) / 400
}

/// The number of days from the first of January 1970 to the first of
/// January of year `y`; negative for earlier years.
pub open spec fn days_before_year(y: int) -> int {
    365 * (y - 1970) + leap_years_before(y) - leap_years_before(1970)
}

/// Whether `y`, `m`, `d` name a day of the calendar.
pub open spec fn is_civil_date(y: int, m: int, d: int) -> bool {
    1 <= m <= 12 && 1 <= d <= days_in_month(y, m)
}

/// The number of days from the first of January 1970 to the given day.
pub open spec fn days_from_civil(y: int, m: int, d: int) -> int {
    days_before_year(y) + days_before_month(y, m) + d - 1
}

/// The calendar day that lies `days` days after the first of January 1970,
/// worked out over 400-year eras that begin on a first of March: the era, the
/// day of the era, the year of the era, the day of that year, and the month
/// counted from March.
pub open spec fn civil_from_days(days: int) -> (int, int, int) {
    let z = days + 719468;
    let era = z / 146097;
    let doe = z - era * 146097;
    let yoe = (doe - doe / 1460 + doe / 36524 - doe / 146096) / 365;
    let doy = doe - (365 * yoe + yoe / 4 - yoe / 100);
    let mp = (5 * doy + 2) / 153;
    let d = doy - (153 * mp + 2) / 5 + 1;
    let m = if mp < 10 {
        mp + 3
    } else {
        mp - 9
    };
    let y = yoe + era * 400 + if m <= 2 {
        1int
    } else {
        0int
    };
    (y, m, d)
}

/// The day of a 400-year era on which its year `k`, counted from a first of
/// March, begins.
pub open spec fn era_year_start(k: int) -> int {
    365 * k + k / 4 - k / 100
}

/// The year of the era that the day `doe` of the era lies in.
pub open spec fn year_of_era(doe: int) -> int {
    (doe - doe / 1460 + doe / 36524 - doe / 146096) / 365
}

/// The number of days of a year that lie before its month `mp`, counted
/// from March.
pub open spec fn march_month_start(mp: int) -> int {
    (153 * mp + 2) / 5
}

/// The year of the era is the one whose days include the day of the era: it
/// begins on or before that day and is not over by then.
#[verifier::rlimit(50)]
proof fn lemma_year_of_era(doe: int)
    requires
        0 <= doe <= 146096,
    ensures
        0 <= year_of_era(doe) <= 399,
        era_year_start(year_of_era(doe)) <= doe,
        doe - era_year_start(year_of_era(doe)) <= 364 + if is_leap_year(year_of_era(doe) + 1) {
            1int
        } else {
            0int
        },
{
    let d: u32 = doe as u32;
    assert({
        let yoe = (d - d / 1460 + d / 36524 - d / 146096) / 365;
        let start = 365 * yoe + yoe / 4 - yoe / 100;
        let next = yoe + 1;
        &&& yoe <= 399
        &&& start <= d
        &&& d - start <= 364 + if next % 4 == 0 && (next % 100 != 0 || next % 400 == 0) {
            1u32
        } else {
            0u32
        }
    }) by (bit_vector)
        requires
            d <= 146096,
    ;
}

/// The month counted from March, and the day of the month, of the day `doy`
/// of a year that begins on a first of March.
#[verifier::rlimit(50)]
proof fn lemma_month_of_year(doy: int)
    requires
        0 <= doy <= 365,
    ensures
        0 <= (5 * doy + 2) / 153 <= 11,
        march_month_start((5 * doy + 2) / 153) <= doy,
        (5 * doy + 2) / 153 < 11 ==> doy < march_month_start((5 * doy + 2) / 153 + 1),
        march_month_start(0) == 0,
        march_month_start(1) == 31,
        march_month_start(2) == 61,
        march_month_start(3) == 92,
        march_month_start(4) == 122,
        march_month_start(5) == 153,
        march_month_start(6) == 184,
        march_month_start(7) == 214,
        march_month_start(8) == 245,
        march_month_start(9) == 275,
        march_month_start(10) == 306,
        march_month_start(11) == 337,
{
}

/// The days before each month of a year.
proof fn lemma_days_before_month(y: int)
    ensures
        days_before_month(y, 1) == 0,
        days_before_month(y, 2) == 31,
        days_before_month(y, 3) == 59 + if is_leap_year(y) {
            1int
        } else {
            0int
        },
        days_before_month(y, 4) == days_before_month(y, 3) + 31,
        days_before_month(y, 5) == days_before_month(y, 3) + 61,
        days_before_month(y, 6) == days_before_month(y, 3) + 92,
        days_before_month(y, 7) == days_before_month(y, 3) + 122,
        days_before_month(y, 8) == days_before_month(y, 3) + 153,
        days_before_month(y, 9) == days_before_month(y, 3) + 184,
        days_before_month(y, 10) == days_before_month(y, 3) + 214,
        days_before_month(y, 11) == days_before_month(y, 3) + 245,
        days_before_month(y, 12) == days_before_month(y, 3) + 275,
{
    reveal_with_fuel(days_before_month, 13);
}

/// The number of leap years up to and including the year `k + 400 * era`,
/// for a year `k` of the era.
#[verifier::rlimit(50)]
proof fn lemma_leap_years(k: int, era: int)
    requires
        0 <= k <= 399,
    ensures
        leap_years_before(k + 400 * era + 1) == 97 * era + k / 4 - k / 100,
        is_leap_year(k + 400 * era) == is_leap_year(k),
        is_leap_year(k + 400 * era + 1) == is_leap_year(k + 1),
        leap_years_before(k + 400 * era) + (if is_leap_year(k + 400 * era) {
            1int
        } else {
            0int
        }) == leap_years_before(k + 400 * era + 1),
{
    lemma_hoist_over_denominator(k, 100 * era, 4);
    lemma_hoist_over_denominator(k, 4 * era, 100);
    lemma_hoist_over_denominator(k, era, 400);
    lemma_hoist_over_denominator(k - 1, 100 * era, 4);
    lemma_hoist_over_denominator(k - 1, 4 * era, 100);
    lemma_hoist_over_denominator(k - 1, era, 400);
    lemma_hoist_over_denominator(k + 1, 100 * era, 4);
    lemma_hoist_over_denominator(k + 1, 4 * era, 100);
    lemma_hoist_over_denominator(k + 1, era, 400);
    assert((k + 400 * era) / 4 == k / 4 + 100 * era);
    assert((k + 400 * era) / 100 == k / 100 + 4 * era);
    assert((k + 400 * era) / 400 == era);
    assert((k - 1 + 400 * era) / 4 == (k - 1) / 4 + 100 * era);
    assert((k - 1 + 400 * era) / 100 == (k - 1) / 100 + 4 * era);
    assert((k - 1 + 400 * era) / 400 == (k - 1) / 400 + era);
    assert((k + 1 + 400 * era) / 4 == (k + 1) / 4 + 100 * era);
    assert((k + 1 + 400 * era) / 100 == (k + 1) / 100 + 4 * era);
    assert((k + 1 + 400 * era) / 400 == (k + 1) / 400 + era);
}

/// The date worked out over eras is the calendar day that lies `days` days
/// after the first of January 1970.
#[verifier::rlimit(50)]
pub proof fn lemma_civil_from_days(days: int)
    ensures
        is_civil_date(
            civil_from_days(days).0,
            civil_from_days(days).1,
            civil_from_days(days).2,
        ),
        days_from_civil(
            civil_from_days(days).0,
            civil_from_days(days).1,
            civil_from_days(days).2,
        ) == days,
{
    let z = days + 719468;
    let era = z / 146097;
    let doe = z - era * 146097;
    let yoe = year_of_era(doe);
    let doy = doe - era_year_start(yoe);
    let mp = (5 * doy + 2) / 153;
    let d = doy - march_month_start(mp) + 1;
    let m = if mp < 10 {
        mp + 3
    } else {
        mp - 9
    };
    let y = yoe + era * 400 + if m <= 2 {
        1int
    } else {
        0int
    };
    assert(civil_from_days(days) == (y, m, d));
    assert(0 <= doe <= 146096);
    lemma_year_of_era(doe);
    lemma_month_of_year(doy);
    lemma_leap_years(yoe, era);
    lemma_days_before_month(y);
    if m <= 2 {
        assert(days_before_month(y, m) + d - 1 == doy - 306);
        assert(days_before_year(y) == 365 * (yoe + 400 * era - 1969) + 97 * era + yoe / 4 - yoe
            / 100 - leap_years_before(1970));
    } else {
        assert(is_leap_year(y) == is_leap_year(yoe));
        assert(days_before_month(y, m) + d - 1 == 59 + (if is_leap_year(y) {
            1int
        } else {
            0int
        }) + doy);
        assert(days_before_year(y) + (if is_leap_year(y) {
            1int
        } else {
            0int
        }) == 365 * (yoe + 400 * era - 1970) + 97 * era + yoe / 4 - yoe / 100
            - leap_years_before(1970));
    }
}

/// A year has 365 days, and one more if it is a leap year.
#[verifier::rlimit(50)]
proof fn lemma_year_length(y: int)
    ensures
        days_before_year(y + 1) - days_before_year(y) == 365 + if is_leap_year(y) {
            1int
        } else {
            0int
        },
{
    let q4 = y / 4;
    let q100 = y / 100;
    let q400 = y / 400;
    assert(y == 4 * q4 + y % 4);
    assert(y == 100 * q100 + y % 100);
    assert(y == 400 * q400 + y % 400);
    assert((y - 1) / 4 == if y % 4 == 0 {
        q4 - 1
    } else {
        q4
    });
    assert((y - 1) / 100 == if y % 100 == 0 {
        q100 - 1
    } else {
        q100
    });
    assert((y - 1) / 400 == if y % 400 == 0 {
        q400 - 1
    } else {
        q400
    });
    assert(y % 100 == 0 ==> y % 4 == 0) by {
        if y % 100 == 0 {
            assert(y == 4 * (25 * q100));
        }
    }
    assert(y % 400 == 0 ==> y % 100 == 0) by {
        if y % 400 == 0 {
            assert(y == 100 * (4 * q400));
        }
    }
}

/// A later year begins later, by at least 365 days for each year between.
proof fn lemma_years_in_order(y1: int, y2: int)
    requires
        y1 <= y2,
    ensures
        days_before_year(y2) - days_before_year(y1) >= 365 * (y2 - y1),
    decreases y2 - y1,
{
    if y1 < y2 {
        lemma_years_in_order(y1, y2 - 1);
        lemma_year_length(y2 - 1);
    }
}

/// No two days of the calendar lie the same number of days after the first
/// of January 1970.
#[verifier::rlimit(50)]
pub proof fn lemma_civil_date_unique(y1: int, m1: int, d1: int, y2: int, m2: int, d2: int)
    requires
        is_civil_date(y1, m1, d1),
        is_civil_date(y2, m2, d2),
        days_from_civil(y1, m1, d1) == days_from_civil(y2, m2, d2),
    ensures
        y1 == y2,
        m1 == m2,
        d1 == d2,
{
    lemma_days_before_month(y1);
    lemma_days_before_month(y2);
    if y1 < y2 {
        lemma_year_length(y1);
        lemma_years_in_order(y1 + 1, y2);
    } else if y2 < y1 {
        lemma_year_length(y2);
        lemma_years_in_order(y2 + 1, y1);
    }
}

/// The largest day number that `days_to_date` takes.
pub const MAX_DAYS: i64 = 0x7fffffffffffffff - 719468;

/// The calendar day that lies `days` days after the first of January 1970
/// (before it, for a negative number): year, month and day of the month.
#[verifier::rlimit(50)]
pub fn days_to_date(days: i64) -> (date: (i64, u32, u32))
    requires
        days <= MAX_DAYS,
    ensures
        (date.0 as int, date.1 as int, date.2 as int) == civil_from_days(days as int),
        is_civil_date(date.0 as int, date.1 as int, date.2 as int),
        days_from_civil(date.0 as int, date.1 as int, date.2 as int) == days,
{
    proof {
        lemma_civil_from_days(days as int);
    }
    let z: i64 = days + 719468;
    let era: i64 = if z >= 0 {
        ((z as u64) / 146097) as i64
    } else {
        -((((146096 - z) as u64) / 146097) as i64)
    };
    assert(era == z as int / 146097);
    let doe: u32 = (z - era * 146097) as u32;
    proof {
        lemma_year_of_era(doe as int);
    }
    let yoe: u32 = (doe - doe / 1460 + doe / 36524 - doe / 146096) / 365;
    assert(yoe == year_of_era(doe as int));
    let y: i64 = yoe as i64 + era * 400;
    let doy: u32 = doe - (365 * yoe + yoe / 4 - yoe / 100);
    assert(doy == doe - era_year_start(yoe as int));
    proof {
        lemma_month_of_year(doy as int);
    }
    let mp: u32 = (5 * doy + 2) / 153;
    let d: u32 = doy - (153 * mp + 2) / 5 + 1;
    let m: u32 = if mp < 10 {
        mp + 3
    } else {
        mp - 9
    };
    let y: i64 = if m <= 2 {
        y + 1
    } else {
        y
    };
    (y, m, d)
}


/// The character of a decimal digit.
pub open spec fn digit_char(d: int) -> char {
    seq!['0', '1', '2', '3', '4', '5', '6', '7', '8', '9'][d]
}

/// The decimal digits of `n`, most significant first.
pub open spec fn decimal(n: nat) -> Seq<char>
    decreases n,
{
    if n < 10 {
        seq![digit_char(n as int)]
    } else {
        decimal(n / 10).push(digit_char((n % 10) as int))
    }
}

/// The decimal digits of `n` with zeros in front up to `width` characters;
/// a number with more digits keeps them all.
pub open spec fn zero_padded(n: nat, width: nat) -> Seq<char> {
    if decimal(n).len() >= width {
        decimal(n)
    } else {
        Seq::new((width - decimal(n).len()) as nat, |i: int| '0') + decimal(n)
    }
}

/// The ISO-8601 text, in UTC and to the millisecond, of the moment `secs`
/// seconds and `millis` milliseconds after the Unix epoch.
pub open spec fn iso_text(secs: u64, millis: u32) -> Seq<char> {
    let date = civil_from_days(secs as int / 86400);
    let time = secs as int % 86400;
    zero_padded(date.0 as nat, 4) + seq!['-'] + zero_padded(date.1 as nat, 2) + seq!['-']
        + zero_padded(date.2 as nat, 2) + seq!['T'] + zero_padded((time / 3600) as nat, 2) + seq![
        ':',
    ] + zero_padded(((time % 3600) / 60) as nat, 2) + seq![':'] + zero_padded(
        (time % 60) as nat,
        2,
    ) + seq!['.'] + zero_padded(millis as nat, 3) + seq!['Z']
}

/// The ISO-8601 text that a clock reading stands for; the epoch itself for a
/// clock that is set before the epoch.
pub open spec fn iso_of(reading: Option<(u64, u32)>) -> Seq<char> {
    match reading {
        Some((secs, nanos)) => iso_text(secs, (nanos / 1000000) as u32),
        None => iso_text(0, 0),
    }
}

/// Appends one decimal digit to `out`.
fn push_digit(out: &mut String, d: u8)
    requires
        d < 10,
    ensures
        final(out)@ == old(out)@.push(digit_char(d as int)),
{
    let text: &str = match d {
        0 => "0",
        1 => "1",
        2 => "2",
        3 => "3",
        4 => "4",
        5 => "5",
        6 => "6",
        7 => "7",
        8 => "8",
        _ => "9",
    };
    proof {
        reveal_strlit("0");
        reveal_strlit("1");
        reveal_strlit("2");
        reveal_strlit("3");
        reveal_strlit("4");
        reveal_strlit("5");
        reveal_strlit("6");
        reveal_strlit("7");
        reveal_strlit("8");
        reveal_strlit("9");
        assert(text@ =~= seq![digit_char(d as int)]);
    }
    out.append(text);
    assert(out@ =~= old(out)@.push(digit_char(d as int)));
}

/// Appends one separator character, given as a one-character literal.
fn push_mark(out: &mut String, mark: &str)
    ensures
        final(out)@ == old(out)@ + mark@,
{
    out.append(mark);
}

/// The number of decimal digits of `value`.
fn digit_count(value: u64) -> (count: usize)
    ensures
        count == decimal(value as nat).len(),
        1 <= count <= 20,
    decreases value,
{
    if value < 10 {
        1
    } else {
        let rest = digit_count(value / 10);
        proof {
            lemma_decimal_len(value as nat);
        }
        rest + 1
    }
}

/// A number below ten to the power `k` has at most `k` digits; here for the
/// numbers that fit 64 bits, which have at most twenty.
proof fn lemma_decimal_len(n: nat)
    requires
        n <= u64::MAX,
    ensures
        1 <= decimal(n).len() <= 20,
        n >= 10 ==> decimal(n).len() == decimal(n / 10).len() + 1,
        n < 10 ==> decimal(n).len() == 1,
        n < 100 ==> decimal(n).len() <= 2,
        n < 1000 ==> decimal(n).len() <= 3,
{
    reveal_with_fuel(decimal, 21);
}

/// Appends the decimal digits of `value` to `out`.
fn push_decimal(out: &mut String, value: u64)
    ensures
        final(out)@ == old(out)@ + decimal(value as nat),
    decreases value,
{
    if value >= 10 {
        push_decimal(out, value / 10);
    }
    let ghost mid = out@;
    push_digit(out, (value % 10) as u8);
    proof {
        if value >= 10 {
            assert(out@ =~= old(out)@ + decimal(value as nat));
        } else {
            assert(out@ =~= old(out)@ + decimal(value as nat));
        }
    }
}

/// Appends `value` in decimal to `out`, with zeros in front up to `width`
/// characters.
fn push_padded(out: &mut String, value: u64, width: usize)
    ensures
        final(out)@ == old(out)@ + zero_padded(value as nat, width as nat),
{
    let count: usize = digit_count(value);
    let mut filled: usize = count;
    let ghost zeros: Seq<char> = Seq::empty();
    while filled < width
        invariant
            count <= filled,
            count == decimal(value as nat).len(),
            filled <= width || filled == count,
            zeros.len() == filled - count,
            forall|i: int| 0 <= i < zeros.len() ==> zeros[i] == '0',
            out@ == old(out)@ + zeros,
        decreases width - filled,
    {
        proof {
            reveal_strlit("0");
            assert(out@ + "0"@ =~= old(out)@ + zeros.push('0'));
            zeros = zeros.push('0');
        }
        out.append("0");
        filled += 1;
    }
    push_decimal(out, value);
    proof {
        if count >= width {
            assert(zeros =~= Seq::<char>::empty());
            assert(out@ =~= old(out)@ + decimal(value as nat));
        } else {
            assert(zeros =~= Seq::new((width - count) as nat, |i: int| '0'));
            assert(out@ =~= old(out)@ + (zeros + decimal(value as nat)));
        }
    }
}

/// The ISO-8601 text, in UTC and to the millisecond, of the moment `secs`
/// seconds and `millis` milliseconds after the Unix epoch, as in
/// `2026-03-01T12:30:05.250Z`.
pub fn iso_timestamp(secs: u64, millis: u32) -> (text: String)
    ensures
        text@ == iso_text(secs, millis),
{
    let days: u64 = secs / 86400;
    let time_secs: u64 = secs % 86400;
    let hours: u64 = time_secs / 3600;
    let minutes: u64 = (time_secs % 3600) / 60;
    let seconds: u64 = time_secs % 60;
    let (year, month, day) = days_to_date(days as i64);
    assert(year >= 0);
    let mut text = String::new();
    push_padded(&mut text, year as u64, 4);
    push_mark(&mut text, "-");
    push_padded(&mut text, month as u64, 2);
    push_mark(&mut text, "-");
    push_padded(&mut text, day as u64, 2);
    push_mark(&mut text, "T");
    push_padded(&mut text, hours, 2);
    push_mark(&mut text, ":");
    push_padded(&mut text, minutes, 2);
    push_mark(&mut text, ":");
    push_padded(&mut text, seconds, 2);
    push_mark(&mut text, ".");
    push_padded(&mut text, millis as u64, 3);
    push_mark(&mut text, "Z");
    proof {
        reveal_strlit("-");
        reveal_strlit("T");
        reveal_strlit(":");
        reveal_strlit(".");
        reveal_strlit("Z");
        assert("-"@ =~= seq!['-']);
        assert("T"@ =~= seq!['T']);
        assert(":"@ =~= seq![':']);
        assert("."@ =~= seq!['.']);
        assert("Z"@ =~= seq!['Z']);
        assert(text@ =~= iso_text(secs, millis));
    }
    text
}

/// Turns a clock reading into its ISO-8601 text.
pub fn iso_from_reading(reading: Option<(u64, u32)>) -> (text: String)
    ensures
        text@ == iso_of(reading),
{
    match reading {
        Some((secs, nanos)) => iso_timestamp(secs, nanos / 1000000),
        None => iso_timestamp(0, 0),
    }
}

/// The current time as ISO-8601 text, in UTC and to the millisecond.
pub fn iso_now() -> (text: String)
    ensures
        exists|reading: Option<(u64, u32)>| is_reading(reading) && text@ == iso_of(reading),
{
    let reading = unix_time();
    iso_from_reading(reading)
}


} // verus!

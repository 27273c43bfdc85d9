//! Subscription quota as the backend reports it, and the calendar that dates it.
use crate::text;
use vstd::prelude::*;
use vstd::string::*;

verus! {

/// A share of a window in percent, held as the bits of the double that the backend serves.
#[derive(Debug, Clone, Copy, PartialEq, Eq, Structural)]
pub struct PercentBits {
    pub bits: u64,
}

impl PercentBits {
    /// The bits without the sign.
    pub open spec fn magnitude(self) -> int {
        self.bits as int % 0x8000_0000_0000_0000
    }

    pub open spec fn negative(self) -> bool {
        self.bits >= 0x8000_0000_0000_0000
    }

    pub open spec fn is_number(self) -> bool {
        self.magnitude() <= 0x7FF0_0000_0000_0000
    }

    /// The place of the double in the order of numbers; both zeros have the same.
    pub open spec fn rank(self) -> int {
        if self.negative() {
            -self.magnitude()
        } else {
            self.magnitude()
        }
    }

    /// Whether the share is larger than `other`; nothing is larger or smaller than what is no
    /// number.
    pub fn exceeds(self, other: PercentBits) -> (yes: bool)
        ensures
            yes == (self.is_number() && other.is_number() && self.rank() > other.rank()),
    {
        let half: u64 = 0x8000_0000_0000_0000;
        let infinite: u64 = 0x7FF0_0000_0000_0000;
        let a: u64 = self.bits % half;
        let b: u64 = other.bits % half;
        if a > infinite || b > infinite {
            return false;
        }
        let x: i128 = if self.bits >= half {
            -(a as i128)
        } else {
            a as i128
        };
        let y: i128 = if other.bits >= half {
            -(b as i128)
        } else {
            b as i128
        };
        x > y
    }

    pub fn is_zero(self) -> (yes: bool)
        ensures
            yes == (self.magnitude() == 0),
    {
        self.bits % 0x8000_0000_0000_0000 == 0
    }
}

/// One rolling window of a quota.
#[derive(Debug, Clone, Copy, PartialEq, Eq, Structural)]
pub struct QuotaWindow {
    /// Share of the window already consumed.
    pub used_percent: PercentBits,
    pub window_minutes: Option<u32>,
    /// When the window resets, in seconds since the Unix epoch.
    pub resets_at_unix: Option<i64>,
}

/// The text after the number of a period.
pub open spec fn window_name(minutes: u32) -> Seq<char> {
    if minutes % 10080 == 0 {
        text::decimal((minutes / 10080) as nat) + "-week window"@
    } else if minutes % 1440 == 0 {
        text::decimal((minutes / 1440) as nat) + "-day window"@
    } else if minutes % 60 == 0 {
        text::decimal((minutes / 60) as nat) + "-hour window"@
    } else {
        text::decimal(minutes as nat) + "-minute window"@
    }
}

fn counted(count: u32, unit: &str) -> (label: String)
    ensures
        label@ == text::decimal(count as nat) + unit@,
{
    let mut label = text::decimal_of(count as u128);
    label.append(unit);
    label
}

impl QuotaWindow {
    /// A window without consumption, duration and reset.
    pub fn is_empty(&self) -> (yes: bool)
        ensures
            yes == (self.used_percent.magnitude() == 0 && self.window_minutes is None
                && self.resets_at_unix is None),
    {
        self.used_percent.is_zero() && self.window_minutes.is_none()
            && self.resets_at_unix.is_none()
    }

    /// The name of the period, in the largest unit that divides it.
    pub fn window_label(&self) -> (label: Option<String>)
        ensures
            text::opt_text(label) == match self.window_minutes {
                Some(minutes) => Some(window_name(minutes)),
                None => None,
            },
    {
        match self.window_minutes {
            Some(minutes) => Some(
                if minutes % 10080 == 0 {
                    counted(minutes / 10080, "-week window")
                } else if minutes % 1440 == 0 {
                    counted(minutes / 1440, "-day window")
                } else if minutes % 60 == 0 {
                    counted(minutes / 60, "-hour window")
                } else {
                    counted(minutes, "-minute window")
                },
            ),
            None => None,
        }
    }

    /// When the window resets, in UTC.
    pub fn resets_at_label(&self) -> (label: Option<String>)
        ensures
            text::opt_text(label) == match self.resets_at_unix {
                Some(secs) => Some(utc_text(secs as int)),
                None => None,
            },
    {
        match self.resets_at_unix {
            Some(secs) => Some(format_unix_utc(secs)),
            None => None,
        }
    }
}

/// The quota of an account at one instant.
#[derive(Debug, Clone, Copy, PartialEq, Eq, Structural)]
pub struct QuotaSnapshot {
    /// The short window.
    pub primary: Option<QuotaWindow>,
    /// The long window.
    pub secondary: Option<QuotaWindow>,
}

impl Default for QuotaSnapshot {
    fn default() -> (snapshot: Self)
        ensures
            snapshot == (QuotaSnapshot { primary: None, secondary: None }),
    {
        QuotaSnapshot { primary: None, secondary: None }
    }
}

impl QuotaSnapshot {
    pub fn is_empty(&self) -> (yes: bool)
        ensures
            yes == (self.primary is None && self.secondary is None),
    {
        self.primary.is_none() && self.secondary.is_none()
    }

    /// The window closest to exhaustion; the short one where both are as close.
    pub fn most_consumed(&self) -> (window: Option<QuotaWindow>)
        ensures
            window == match (self.primary, self.secondary) {
                (Some(a), Some(b)) => if b.used_percent.is_number() && a.used_percent.is_number()
                    && b.used_percent.rank() > a.used_percent.rank() {
                    Some(b)
                } else {
                    Some(a)
                },
                (Some(a), None) => Some(a),
                (None, b) => b,
            },
    {
        match (self.primary, self.secondary) {
            (Some(a), Some(b)) => if b.used_percent.exceeds(a.used_percent) {
                Some(b)
            } else {
                Some(a)
            },
            (Some(a), None) => Some(a),
            (None, b) => b,
        }
    }
}

// ---------------------------------------------------------------- calendar

/// A leap year of the Gregorian calendar.
pub open spec fn leap(year: int) -> bool {
    year % 4 == 0 && (year % 100 != 0 || year % 400 == 0)
}

pub open spec fn days_in_month(year: int, month: int) -> int {
    if month == 2 {
        if leap(year) {
            29
        } else {
            28
        }
    } else if month == 4 || month == 6 || month == 9 || month == 11 {
        30
    } else {
        31
    }
}

/// A date that the calendar has.
pub open spec fn valid_date(year: int, month: int, day: int) -> bool {
    1 <= month <= 12 && 1 <= day <= days_in_month(year, month)
}

/// The days from 1 January of year 0 to 1 January of `year`.
pub open spec fn days_before_year(year: int) -> int {
    365 * year + (year + 3) / 4 - (year + 99) / 100 + (year + 399) / 400
}

/// The days of the months before `month`.
pub open spec fn days_before_month(year: int, month: int) -> int {
    let common = if month == 1 {
        0int
    } else if month == 2 {
        31
    } else if month == 3 {
        59
    } else if month == 4 {
        90
    } else if month == 5 {
        120
    } else if month == 6 {
        151
    } else if month == 7 {
        181
    } else if month == 8 {
        212
    } else if month == 9 {
        243
    } else if month == 10 {
        273
    } else if month == 11 {
        304
    } else {
        334
    };
    if month > 2 && leap(year) {
        common + 1
    } else {
        common
    }
}

/// The days from 1 January 1970 to a date.
pub open spec fn days_from_civil(year: int, month: int, day: int) -> int {
    days_before_year(year) + days_before_month(year, month) + day - 1 - days_before_year(1970)
}

/// A number with zeros in front of it up to a width, the sign counted.
pub open spec fn padded(n: int, width: nat) -> Seq<char> {
    if n < 0 {
        seq!['-'] + zeros(width as int - 1 - text::decimal((-n) as nat).len()) + text::decimal(
            (-n) as nat,
        )
    } else {
        zeros(width as int - text::decimal(n as nat).len()) + text::decimal(n as nat)
    }
}

pub open spec fn zeros(count: int) -> Seq<char> {
    Seq::new(
        if count < 0 {
            0
        } else {
            count as nat
        },
        |i: int| '0',
    )
}

/// The date of a day: the only date that lies that many days after 1 January 1970.
pub open spec fn civil(days: int) -> (int, int, int) {
    choose|date: (int, int, int)|
        #[trigger] valid_date(date.0, date.1, date.2) && days_from_civil(date.0, date.1, date.2)
            == days
}

/// A Unix instant as `YYYY-MM-DD HH:MM UTC`.
pub open spec fn utc_text(secs: int) -> Seq<char> {
    let date = civil(secs / 86400);
    let rem = secs % 86400;
    padded(date.0, 4) + seq!['-'] + padded(date.1, 2) + seq!['-'] + padded(date.2, 2) + seq![' ']
        + padded(rem / 3600, 2) + seq![':'] + padded(rem % 3600 / 60, 2) + " UTC"@
}

proof fn lemma_year_step(year: int)
    ensures
        days_before_year(year + 1) == days_before_year(year) + if leap(year) {
            366int
        } else {
            365
        },
{
}

proof fn lemma_years_grow(a: int, b: int)
    requires
        a <= b,
    ensures
        days_before_year(b) >= days_before_year(a) + 365 * (b - a),
    decreases b - a,
{
    if a < b {
        lemma_years_grow(a, b - 1);
        lemma_year_step(b - 1);
    }
}

proof fn lemma_month_step(year: int, month: int)
    requires
        1 <= month <= 12,
    ensures
        0 <= days_before_month(year, month),
        month < 12 ==> days_before_month(year, month + 1) == days_before_month(year, month)
            + days_in_month(year, month),
        days_before_month(year, 12) + 31 == if leap(year) {
            366int
        } else {
            365
        },
{
}

proof fn lemma_months_grow(year: int, a: int, b: int)
    requires
        1 <= a < b <= 12,
    ensures
        days_before_month(year, a) + days_in_month(year, a) <= days_before_month(year, b),
    decreases b - a,
{
    lemma_month_step(year, b - 1);
    if a < b - 1 {
        lemma_months_grow(year, a, b - 1);
        lemma_month_step(year, a);
    }
}

/// No two dates lie the same number of days after 1 January 1970.
pub proof fn law_dates_are_distinct(a: (int, int, int), b: (int, int, int))
    requires
        valid_date(a.0, a.1, a.2),
        valid_date(b.0, b.1, b.2),
        days_from_civil(a.0, a.1, a.2) == days_from_civil(b.0, b.1, b.2),
    ensures
        a == b,
{
    lemma_date_within_year(a.0, a.1, a.2);
    lemma_date_within_year(b.0, b.1, b.2);
    if a.0 < b.0 {
        lemma_year_step(a.0);
        lemma_years_grow(a.0 + 1, b.0);
    } else if b.0 < a.0 {
        lemma_year_step(b.0);
        lemma_years_grow(b.0 + 1, a.0);
    } else if a.1 < b.1 {
        lemma_months_grow(a.0, a.1, b.1);
    } else if b.1 < a.1 {
        lemma_months_grow(a.0, b.1, a.1);
    }
}

/// The calendar reads a date back from its day.
pub proof fn law_calendar_inverts(year: int, month: int, day: int)
    requires
        valid_date(year, month, day),
    ensures
        civil(days_from_civil(year, month, day)) == (year, month, day),
{
    let days = days_from_civil(year, month, day);
    let date = (year, month, day);
    assert(valid_date(date.0, date.1, date.2) && days_from_civil(date.0, date.1, date.2) == days);
    law_dates_are_distinct(date, civil(days));
}

proof fn lemma_date_within_year(year: int, month: int, day: int)
    requires
        valid_date(year, month, day),
    ensures
        0 <= days_before_month(year, month) + day - 1 < if leap(year) {
            366int
        } else {
            365
        },
{
    lemma_month_step(year, month);
    lemma_month_step(year, 12);
    if month < 12 {
        lemma_months_grow(year, month, 12);
    }
}

/// The year of a day, counted from 1 January of year 0, and the day within that year.
fn year_of_day(z: i64) -> (found: (i64, i64))
    requires
        -300_000_000_000_000 <= z <= 300_000_000_000_000,
    ensures
        days_before_year(found.0 as int) + found.1 == z,
        0 <= found.1 < if leap(found.0 as int) {
            366int
        } else {
            365
        },
        -300_000_000_000_000 <= found.0 <= 300_000_000_000_000,
{
    let era: i64 = if z >= 0 {
        z / 146_097
    } else {
        -((-z - 1) / 146_097) - 1
    };
    let doe: i64 = z - era * 146_097;
    assert(0 <= doe < 146_097);
    // The first century of an era has one day more than the others, and so has the first year of
    // most groups of four.
    let century: i64 = if doe == 0 {
        0
    } else {
        (doe - 1) / 36_524
    };
    assert(0 <= century <= 3);
    let doc: i64 = if century == 0 {
        doe
    } else {
        doe - 1 - century * 36_524
    };
    let (year_of_century, day_of_year) = year_of_century_day(century == 0, doc);
    proof {
        lemma_year_in_era(
            era as int,
            century as int,
            year_of_century as int,
            doc as int,
            day_of_year as int,
        );
    }
    (era * 400 + century * 100 + year_of_century, day_of_year)
}

/// The place of a day within its century.
pub open spec fn century_split(first: bool, doc: int) -> (int, int) {
    if first {
        if doc % 1_461 < 366 {
            (doc / 1_461 * 4, doc % 1_461)
        } else {
            (doc / 1_461 * 4 + 1 + (doc % 1_461 - 366) / 365, (doc % 1_461 - 366) % 365)
        }
    } else if doc < 1_460 {
        (doc / 365, doc % 365)
    } else if (doc - 1_460) % 1_461 < 366 {
        ((doc - 1_460) / 1_461 * 4 + 4, (doc - 1_460) % 1_461)
    } else {
        (
            (doc - 1_460) / 1_461 * 4 + 5 + ((doc - 1_460) % 1_461 - 366) / 365,
            ((doc - 1_460) % 1_461 - 366) % 365,
        )
    }
}

fn year_of_century_day(first: bool, doc: i64) -> (found: (i64, i64))
    requires
        0 <= doc < 36_525,
    ensures
        (found.0 as int, found.1 as int) == century_split(first, doc as int),
        0 <= found.0 <= 1000,
        0 <= found.1 <= 1000,
{
    if first {
        let quad: i64 = doc / 1_461;
        let doq: i64 = doc % 1_461;
        if doq < 366 {
            (quad * 4, doq)
        } else {
            (quad * 4 + 1 + (doq - 366) / 365, (doq - 366) % 365)
        }
    } else if doc < 1_460 {
        (doc / 365, doc % 365)
    } else {
        let quad: i64 = (doc - 1_460) / 1_461;
        let doq: i64 = (doc - 1_460) % 1_461;
        if doq < 366 {
            (quad * 4 + 4, doq)
        } else {
            (quad * 4 + 5 + (doq - 366) / 365, (doq - 366) % 365)
        }
    }
}

/// The month of a day of a year, and the day within that month.
fn month_of_day(year: i64, day_of_year: i64) -> (found: (u32, u32))
    requires
        0 <= day_of_year < if leap(year as int) {
            366int
        } else {
            365
        },
        -300_000_000_000_000 <= year <= 300_000_000_000_000,
    ensures
        valid_date(year as int, found.0 as int, found.1 as int),
        days_before_month(year as int, found.0 as int) + found.1 - 1 == day_of_year,
{
    let is_leap = is_leap_year(year);
    let extra: i64 = if is_leap {
        1
    } else {
        0
    };
    let (month, before): (u32, i64) = if day_of_year < 31 {
        (1, 0)
    } else if day_of_year < 59 + extra {
        (2, 31)
    } else if day_of_year < 90 + extra {
        (3, 59 + extra)
    } else if day_of_year < 120 + extra {
        (4, 90 + extra)
    } else if day_of_year < 151 + extra {
        (5, 120 + extra)
    } else if day_of_year < 181 + extra {
        (6, 151 + extra)
    } else if day_of_year < 212 + extra {
        (7, 181 + extra)
    } else if day_of_year < 243 + extra {
        (8, 212 + extra)
    } else if day_of_year < 273 + extra {
        (9, 243 + extra)
    } else if day_of_year < 304 + extra {
        (10, 273 + extra)
    } else if day_of_year < 334 + extra {
        (11, 304 + extra)
    } else {
        (12, 334 + extra)
    };
    let day: i64 = day_of_year - before + 1;
    (month, day as u32)
}

fn is_leap_year(year: i64) -> (yes: bool)
    requires
        -300_000_000_000_000 <= year <= 300_000_000_000_000,
    ensures
        yes == leap(year as int),
{
    // Brought into the positive numbers by a multiple of the cycle.
    let shifted: i64 = year + 400_000_000_000_000;
    shifted % 4 == 0 && (shifted % 100 != 0 || shifted % 400 == 0)
}

/// The date of a day, counted from 1 January 1970.
fn civil_from_days(days: i64) -> (date: (i64, u32, u32))
    requires
        -200_000_000_000_000 <= days <= 200_000_000_000_000,
    ensures
        valid_date(date.0 as int, date.1 as int, date.2 as int),
        days_from_civil(date.0 as int, date.1 as int, date.2 as int) == days,
        civil(days as int) == (date.0 as int, date.1 as int, date.2 as int),
        -300_000_000_000_000 <= date.0 <= 300_000_000_000_000,
{
    assert(days_before_year(1970) == 719_528);
    let (year, day_of_year) = year_of_day(days + 719_528);
    let (month, day) = month_of_day(year, day_of_year);
    proof {
        let date = (year as int, month as int, day as int);
        assert(valid_date(date.0, date.1, date.2));
        assert(days_from_civil(date.0, date.1, date.2) == days);
        let chosen = civil(days as int);
        law_dates_are_distinct(date, chosen);
    }
    (year, month, day)
}

/// Where a day of a century lies: its year within the era begins that many days after the era.
proof fn lemma_year_in_era(era: int, century: int, yoc: int, doc: int, doy: int)
    requires
        0 <= century <= 3,
        0 <= doc,
        doc < if century == 0 {
            36_525int
        } else {
            36_524
        },
        (yoc, doy) == century_split(century == 0, doc),
    ensures
        ({
            let year = era * 400 + century * 100 + yoc;
            let doe = if century == 0 {
                doc
            } else {
                doc + 1 + century * 36_524
            };
            &&& days_before_year(year) + doy == era * 146_097 + doe
            &&& 0 <= doy < if leap(year) {
                366int
            } else {
                365
            }
            &&& 0 <= yoc < 100
        }),
{
    let year = era * 400 + century * 100 + yoc;
    assert(0 <= yoc < 100);
    assert((year + 399) / 400 == era + if century == 0 && yoc == 0 {
        0int
    } else {
        1
    });
    assert((year + 99) / 100 == era * 4 + century + if yoc == 0 {
        0int
    } else {
        1
    });
    assert((year + 3) / 4 == era * 100 + century * 25 + (yoc + 3) / 4);
    assert(year % 4 == yoc % 4);
    assert(year % 100 == yoc);
    assert(year % 400 == century * 100 + yoc);
}

fn padded_of(n: i64, width: usize) -> (digits: String)
    requires
        width <= 8,
        n > i64::MIN,
    ensures
        digits@ == padded(n as int, width as nat),
{
    let negative = n < 0;
    let magnitude: u128 = if negative {
        (-n) as u128
    } else {
        n as u128
    };
    let number = text::decimal_of(magnitude);
    let chars = text::to_chars(number.as_str());
    let mut digits = String::new();
    let mut filled: usize = chars.len();
    if negative {
        digits.push('-');
    }
    let ghost sign = digits@;
    let room: usize = if negative {
        if width == 0 {
            0
        } else {
            width - 1
        }
    } else {
        width
    };
    let start: usize = filled;
    while filled < room
        invariant
            start == chars@.len(),
            start <= filled,
            room <= 8,
            filled <= room || filled == start,
            digits@ == sign + zeros(filled - start),
        decreases room - filled,
    {
        digits.push('0');
        filled += 1;
        assert(digits@ =~= sign + zeros(filled - start));
    }
    digits.append(number.as_str());
    assert(digits@ =~= padded(n as int, width as nat));
    digits
}

/// Formats a Unix instant as `YYYY-MM-DD HH:MM UTC`.
pub fn format_unix_utc(secs: i64) -> (label: String)
    ensures
        label@ == utc_text(secs as int),
{
    let days: i64 = if secs >= 0 {
        secs / 86_400
    } else {
        -((-(secs + 1)) / 86_400) - 1
    };
    let rem: i64 = if secs >= 0 {
        secs % 86_400
    } else {
        86_399 - (-(secs + 1)) % 86_400
    };
    assert(days == secs as int / 86400 && rem == secs as int % 86400);
    let (year, month, day) = civil_from_days(days);
    let mut label = padded_of(year, 4);
    label.push('-');
    label.append(padded_of(month as i64, 2).as_str());
    label.push('-');
    label.append(padded_of(day as i64, 2).as_str());
    label.push(' ');
    label.append(padded_of(rem / 3_600, 2).as_str());
    label.push(':');
    label.append(padded_of(rem % 3_600 / 60, 2).as_str());
    label.append(" UTC");
    assert(label@ =~= utc_text(secs as int));
    label
}

/// The calendar is the one in use: the epoch is day zero, and each day is followed by the next of
/// its month, the last of a month by the first of the next one, the last of a year by the first of
/// the next one. A month has the days that it has, and February one more in a leap year.
pub proof fn law_days_follow_one_another(year: int, month: int, day: int)
    requires
        1 <= month <= 12,
    ensures
        ({
            let leaps = if year % 400 == 0 {
                true
            } else if year % 100 == 0 {
                false
            } else {
                year % 4 == 0
            };
            let length: int = if month == 2 {
                if leaps {
                    29
                } else {
                    28
                }
            } else if month == 4 || month == 6 || month == 9 || month == 11 {
                30
            } else {
                31
            };
            &&& days_from_civil(1970, 1, 1) == 0
            &&& valid_date(year, month, day) <==> 1 <= day <= length
            &&& days_from_civil(year, month, day + 1) == days_from_civil(year, month, day) + 1
            &&& month < 12 ==> days_from_civil(year, month + 1, 1) == days_from_civil(
                year,
                month,
                length,
            ) + 1
            &&& days_from_civil(year + 1, 1, 1) == days_from_civil(year, 12, 31) + 1
        }),
{
    lemma_year_step(year);
}

/// An instant reads as its date and its time of day in UTC, to the minute.
pub proof fn law_instants_read_as_their_date(
    year: int,
    month: int,
    day: int,
    hour: int,
    minute: int,
    second: int,
)
    requires
        valid_date(year, month, day),
        0 <= hour < 24,
        0 <= minute < 60,
        0 <= second < 60,
    ensures
        utc_text(
            days_from_civil(year, month, day) * 86400 + hour * 3600 + minute * 60 + second,
        ) == padded(year, 4) + seq!['-'] + padded(month, 2) + seq!['-'] + padded(day, 2) + seq![' ']
            + padded(hour, 2) + seq![':'] + padded(minute, 2) + " UTC"@,
{
    let days = days_from_civil(year, month, day);
    let secs = days * 86400 + hour * 3600 + minute * 60 + second;
    assert(secs / 86400 == days);
    law_calendar_inverts(year, month, day);
}

/// A padded number is its digits behind as many zeros as it lacks of the width.
pub proof fn law_numbers_are_padded(n: int, width: nat)
    requires
        n >= 0,
    ensures
        text::decimal(n as nat).is_suffix_of(padded(n, width)),
        padded(n, width).len() >= width,
        text::decimal(n as nat).len() >= width ==> padded(n, width) == text::decimal(n as nat),
        text::decimal(n as nat).len() < width ==> padded(n, width).len() == width,
        forall|i: int|
            0 <= i < padded(n, width).len() - text::decimal(n as nat).len() ==> #[trigger] padded(
                n,
                width,
            )[i] == '0',
{
    if text::decimal(n as nat).len() >= width {
        assert(padded(n, width) =~= text::decimal(n as nat));
    }
}

/// A window is named in the largest unit that it is a whole number of.
pub proof fn law_windows_are_named_in_whole_units(minutes: u32, count: u32)
    ensures
        minutes == count * 10080 ==> window_name(minutes) == text::decimal(count as nat)
            + "-week window"@,
        minutes == count * 1440 && minutes % 10080 != 0 ==> window_name(minutes) == text::decimal(
            count as nat,
        ) + "-day window"@,
        minutes == count * 60 && minutes % 1440 != 0 ==> window_name(minutes) == text::decimal(
            count as nat,
        ) + "-hour window"@,
        minutes % 60 != 0 ==> window_name(minutes) == text::decimal(minutes as nat)
            + "-minute window"@,
{
}

/// Shares are ordered as the numbers that they are: the larger magnitude is the larger number among
/// positive ones and the smaller among negative ones, and no negative one is above a positive one.
pub proof fn law_shares_are_ordered_as_numbers(a: PercentBits, b: PercentBits)
    requires
        a.is_number() && b.is_number(),
    ensures
        a.bits < 0x8000_0000_0000_0000 && b.bits < 0x8000_0000_0000_0000 ==> (a.rank() > b.rank()
            <==> a.bits > b.bits),
        a.bits >= 0x8000_0000_0000_0000 && b.bits >= 0x8000_0000_0000_0000 ==> (a.rank()
            > b.rank() <==> a.bits < b.bits),
        a.bits < 0x8000_0000_0000_0000 && b.bits >= 0x8000_0000_0000_0000 ==> a.rank() >= b.rank(),
{
}

} // verus!

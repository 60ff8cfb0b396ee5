//! The XSD types of dates and times: `dateTime`, `time`, `date`,
//! `gYearMonth`, `gYear`, `gMonthDay`, `gDay` and `gMonth`. A value is held
//! by its fields as they are written, with the offset of its timezone.

use crate::model::decimal::{push_fraction, without_trailing_zeros};
use crate::model::lexical::{
    ascii_string, ascii_text, digit_of, digits_end, is_ascii_bytes, is_digit_byte,
    lemma_number_of_bound, lemma_pow10_add, lemma_pow10_grows, lemma_pow10_values, natural_bytes,
    number_of, padded, pow10, push_byte, push_natural, push_padded, read_number, scan_digits,
    ten_to,
};
use vstd::prelude::*;
use vstd::string::StringSliceAdditionalSpecFns;
use vstd::utf8::encode_utf8;

verus! {

/// Which of the eight types a value is of.
#[derive(Clone, Copy, Debug, PartialEq, Eq, Structural, Hash)]
pub enum DateTimeKind {
    DateTime,
    Time,
    Date,
    GYearMonth,
    GYear,
    GMonthDay,
    GDay,
    GMonth,
}

/// The fields of a date, a time or a part of one. A field that the type of
/// the value does not have is zero. The seconds are in quintillionths, and
/// the offset of the timezone in minutes.
#[derive(Clone, Copy, Debug, PartialEq, Eq, Hash)]
pub struct DateTimeFields {
    pub year: i64,
    pub month: u8,
    pub day: u8,
    pub hour: u8,
    pub minute: u8,
    pub second: u128,
    pub timezone_offset: Option<i16>,
}

impl DateTimeKind {
    pub open spec fn has_year(self) -> bool {
        self == DateTimeKind::DateTime || self == DateTimeKind::Date || self
            == DateTimeKind::GYearMonth || self == DateTimeKind::GYear
    }

    pub open spec fn has_month(self) -> bool {
        self == DateTimeKind::DateTime || self == DateTimeKind::Date || self
            == DateTimeKind::GYearMonth || self == DateTimeKind::GMonthDay || self
            == DateTimeKind::GMonth
    }

    pub open spec fn has_day(self) -> bool {
        self == DateTimeKind::DateTime || self == DateTimeKind::Date || self
            == DateTimeKind::GMonthDay || self == DateTimeKind::GDay
    }

    pub open spec fn has_time(self) -> bool {
        self == DateTimeKind::DateTime || self == DateTimeKind::Time
    }

    pub fn with_year(self) -> (r: bool)
        ensures
            r == self.has_year(),
    {
        matches!(
            self,
            DateTimeKind::DateTime | DateTimeKind::Date | DateTimeKind::GYearMonth
                | DateTimeKind::GYear
        )
    }

    pub fn with_month(self) -> (r: bool)
        ensures
            r == self.has_month(),
    {
        matches!(
            self,
            DateTimeKind::DateTime | DateTimeKind::Date | DateTimeKind::GYearMonth
                | DateTimeKind::GMonthDay | DateTimeKind::GMonth
        )
    }

    pub fn with_day(self) -> (r: bool)
        ensures
            r == self.has_day(),
    {
        matches!(
            self,
            DateTimeKind::DateTime | DateTimeKind::Date | DateTimeKind::GMonthDay
                | DateTimeKind::GDay
        )
    }

    pub fn with_time(self) -> (r: bool)
        ensures
            r == self.has_time(),
    {
        matches!(self, DateTimeKind::DateTime | DateTimeKind::Time)
    }
}

/// Whether a year of the proleptic Gregorian calendar is a leap year, by
/// its magnitude.
pub open spec fn is_leap_year(year: nat) -> bool {
    (year % 4 == 0 && year % 100 != 0) || year % 400 == 0
}

/// How many days a month has.
pub open spec fn days_in_month(leap: bool, month: nat) -> nat {
    if month == 2 {
        if leap {
            29
        } else {
            28
        }
    } else if month == 4 || month == 6 || month == 9 || month == 11 {
        30
    } else {
        31
    }
}

/// The magnitude of a year.
pub open spec fn year_magnitude(year: i64) -> nat {
    if year < 0 {
        (-(year as int)) as nat
    } else {
        year as nat
    }
}

/// Whether the fields of a value of some type are in order: each field that
/// the type has is in its range, the day is one of its month, and each field
/// that the type does not have is zero. A month and a day without a year may
/// be the 29th of February.
pub open spec fn fields_are_valid(kind: DateTimeKind, fields: DateTimeFields) -> bool {
    &&& if kind.has_year() {
        true
    } else {
        fields.year == 0
    }
    &&& if kind.has_month() {
        1 <= fields.month <= 12
    } else {
        fields.month == 0
    }
    &&& if kind.has_day() {
        1 <= fields.day <= days_in_month(
            !kind.has_year() || is_leap_year(year_magnitude(fields.year)),
            if kind.has_month() {
                fields.month as nat
            } else {
                1
            },
        )
    } else {
        fields.day == 0
    }
    &&& if kind.has_time() {
        fields.hour <= 23 && fields.minute <= 59 && fields.second < 60 * pow10(18)
    } else {
        fields.hour == 0 && fields.minute == 0 && fields.second == 0
    }
    &&& fields.timezone_offset matches Some(offset) ==> -840 <= offset <= 840
}

/// Two digits at a place: their number and the place behind them.
pub open spec fn two_digits_at(bytes: Seq<u8>, at: int) -> Option<(nat, int)> {
    if 0 <= at && at + 2 <= bytes.len() && is_digit_byte(bytes[at]) && is_digit_byte(
        bytes[at + 1],
    ) {
        Some((digit_of(bytes[at]) * 10 + digit_of(bytes[at + 1]), at + 2))
    } else {
        None
    }
}

/// A byte at a place: the place behind it.
pub open spec fn byte_at(bytes: Seq<u8>, at: int, byte: u8) -> Option<int> {
    if 0 <= at < bytes.len() && bytes[at] == byte {
        Some(at + 1)
    } else {
        None
    }
}

/// A year at a place: an optional minus sign, then four digits or more,
/// without a zero in front where there are more than four.
pub open spec fn year_at(bytes: Seq<u8>, at: int) -> Option<(i64, int)> {
    let negative = 0 <= at < bytes.len() && bytes[at] == 0x2d;
    let start = if negative {
        at + 1
    } else {
        at
    };
    let end = digits_end(bytes, start);
    let magnitude = number_of(bytes, start, end);
    let value = if negative {
        -(magnitude as int)
    } else {
        magnitude as int
    };
    if at < 0 || start > bytes.len() || end - start < 4 {
        None
    } else if end - start > 4 && bytes[start] == 0x30 {
        None
    } else if i64::MIN <= value <= i64::MAX {
        Some((value as i64, end))
    } else {
        None
    }
}

/// Seconds at a place, in quintillionths: two digits, and behind an optional
/// point up to 18 digits more, one at least.
pub open spec fn seconds_at(bytes: Seq<u8>, at: int) -> Option<(nat, int)> {
    match two_digits_at(bytes, at) {
        None => None,
        Some((whole, next)) => if next < bytes.len() && bytes[next] == 0x2e {
            let end = digits_end(bytes, next + 1);
            if end - (next + 1) < 1 || end - (next + 1) > 18 {
                None
            } else {
                Some(
                    (
                        whole * pow10(18) + number_of(bytes, next + 1, end) * pow10(
                            (18 - (end - (next + 1))) as nat,
                        ),
                        end,
                    ),
                )
            }
        } else {
            Some((whole * pow10(18), next))
        },
    }
}

/// A timezone from a place up to the end of the text: nothing, `Z`, or a
/// sign, two digits of hours, a colon and two digits of minutes, up to 14
/// hours.
pub open spec fn timezone_at(bytes: Seq<u8>, at: int) -> Option<Option<i16>> {
    if at == bytes.len() {
        Some(None)
    } else if 0 <= at < bytes.len() && bytes[at] == 0x5a {
        if at + 1 == bytes.len() {
            Some(Some(0i16))
        } else {
            None
        }
    } else if 0 <= at < bytes.len() && (bytes[at] == 0x2b || bytes[at] == 0x2d) {
        match two_digits_at(bytes, at + 1) {
            None => None,
            Some((hours, colon)) => match byte_at(bytes, colon, 0x3a) {
                None => None,
                Some(next) => match two_digits_at(bytes, next) {
                    None => None,
                    Some((minutes, end)) => if end != bytes.len() || hours > 14 || minutes > 59
                        || (hours == 14 && minutes != 0) {
                        None
                    } else if bytes[at] == 0x2d {
                        Some(Some((-(hours * 60 + minutes)) as i16))
                    } else {
                        Some(Some((hours * 60 + minutes) as i16))
                    },
                },
            },
        }
    } else {
        None
    }
}

/// The date at the front of a text of some type: the fields of the date that
/// the type has, each behind its hyphens, and the place behind them.
pub open spec fn date_at(kind: DateTimeKind, bytes: Seq<u8>) -> Option<(i64, nat, nat, int)> {
    let year = if kind.has_year() {
        year_at(bytes, 0)
    } else if kind == DateTimeKind::Time {
        Some((0i64, 0int))
    } else {
        match byte_at(bytes, 0, 0x2d) {
            Some(next) => Some((0i64, next)),
            None => None,
        }
    };
    match year {
        None => None,
        Some((year, after_year)) => {
            let month = if kind.has_month() {
                match byte_at(bytes, after_year, 0x2d) {
                    None => None,
                    Some(next) => two_digits_at(bytes, next),
                }
            } else if kind == DateTimeKind::GDay {
                match byte_at(bytes, after_year, 0x2d) {
                    Some(next) => Some((0nat, next)),
                    None => None,
                }
            } else {
                Some((0nat, after_year))
            };
            match month {
                None => None,
                Some((month, after_month)) => {
                    let day = if kind.has_day() {
                        match byte_at(bytes, after_month, 0x2d) {
                            None => None,
                            Some(next) => two_digits_at(bytes, next),
                        }
                    } else {
                        Some((0nat, after_month))
                    };
                    match day {
                        None => None,
                        Some((day, after_day)) => Some((year, month, day, after_day)),
                    }
                },
            }
        },
    }
}

/// The time of day at a place of a text of some type, behind a `T` where
/// the type has a date too.
pub open spec fn time_at(kind: DateTimeKind, bytes: Seq<u8>, at: int) -> Option<
    (nat, nat, nat, int),
> {
    if !kind.has_time() {
        Some((0, 0, 0, at))
    } else {
        let start = if kind == DateTimeKind::DateTime {
            byte_at(bytes, at, 0x54)
        } else {
            Some(at)
        };
        match start {
            None => None,
            Some(start) => match two_digits_at(bytes, start) {
                None => None,
                Some((hour, first_colon)) => match byte_at(bytes, first_colon, 0x3a) {
                    None => None,
                    Some(next) => match two_digits_at(bytes, next) {
                        None => None,
                        Some((minute, second_colon)) => match byte_at(
                            bytes,
                            second_colon,
                            0x3a,
                        ) {
                            None => None,
                            Some(next) => match seconds_at(bytes, next) {
                                None => None,
                                Some((second, end)) => Some((hour, minute, second, end)),
                            },
                        },
                    },
                },
            },
        }
    }
}

/// The value of some type that a text denotes, if it denotes one.
pub open spec fn date_time_of(kind: DateTimeKind, bytes: Seq<u8>) -> Option<DateTimeFields> {
    match date_at(kind, bytes) {
        None => None,
        Some((year, month, day, after_date)) => match time_at(kind, bytes, after_date) {
            None => None,
            Some((hour, minute, second, after_time)) => match timezone_at(bytes, after_time) {
                None => None,
                Some(timezone_offset) => {
                    if month > 255 || day > 255 || hour > 255 || minute > 255 || second
                        > u128::MAX {
                        None
                    } else {
                        let fields = DateTimeFields {
                            year,
                            month: month as u8,
                            day: day as u8,
                            hour: hour as u8,
                            minute: minute as u8,
                            second: second as u128,
                            timezone_offset,
                        };
                        if fields_are_valid(kind, fields) {
                            Some(fields)
                        } else {
                            None
                        }
                    }
                },
            },
        },
    }
}

fn two_digits(bytes: &[u8], at: usize) -> (r: Option<(u8, usize)>)
    ensures
        match r {
            Some((value, next)) => two_digits_at(bytes@, at as int) == Some(
                (value as nat, next as int),
            ) && value <= 99 && next <= bytes@.len(),
            None => two_digits_at(bytes@, at as int) is None,
        },
{
    if at <= bytes.len() && bytes.len() - at >= 2 && bytes[at] >= 0x30 && bytes[at] <= 0x39
        && bytes[at + 1] >= 0x30 && bytes[at + 1] <= 0x39 {
        Some(((bytes[at] - 0x30) * 10 + (bytes[at + 1] - 0x30), at + 2))
    } else {
        None
    }
}

fn byte(bytes: &[u8], at: usize, wanted: u8) -> (r: Option<usize>)
    ensures
        match r {
            Some(next) => byte_at(bytes@, at as int, wanted) == Some(next as int) && next
                <= bytes@.len(),
            None => byte_at(bytes@, at as int, wanted) is None,
        },
{
    if at < bytes.len() && bytes[at] == wanted {
        Some(at + 1)
    } else {
        None
    }
}

fn year(bytes: &[u8], at: usize) -> (r: Option<(i64, usize)>)
    ensures
        match r {
            Some((value, next)) => year_at(bytes@, at as int) == Some((value, next as int))
                && next <= bytes@.len(),
            None => year_at(bytes@, at as int) is None,
        },
{
    let negative = at < bytes.len() && bytes[at] == 0x2d;
    let start: usize = if negative {
        at + 1
    } else {
        at
    };
    if start > bytes.len() {
        return None;
    }
    let end = scan_digits(bytes, start);
    if end - start < 4 {
        return None;
    }
    if end - start > 4 && bytes[start] == 0x30 {
        return None;
    }
    match read_number(bytes, start, end, 9_223_372_036_854_775_808) {
        None => None,
        Some(magnitude) => {
            if negative {
                if magnitude == 9_223_372_036_854_775_808 {
                    Some((i64::MIN, end))
                } else {
                    Some((-(magnitude as i64), end))
                }
            } else if magnitude > 9_223_372_036_854_775_807 {
                None
            } else {
                Some((magnitude as i64, end))
            }
        },
    }
}

fn seconds(bytes: &[u8], at: usize) -> (r: Option<(u128, usize)>)
    ensures
        match r {
            Some((value, next)) => seconds_at(bytes@, at as int) == Some(
                (value as nat, next as int),
            ) && next <= bytes@.len() && value < 100 * pow10(18),
            None => seconds_at(bytes@, at as int) is None,
        },
{
    proof {
        lemma_pow10_values();
    }
    let (whole, next) = match two_digits(bytes, at) {
        Some(found) => found,
        None => { return None; },
    };
    if next < bytes.len() && bytes[next] == 0x2e {
        let end = scan_digits(bytes, next + 1);
        let count = end - (next + 1);
        if count < 1 || count > 18 {
            return None;
        }
        let ghost part = number_of(bytes@, next as int + 1, end as int);
        let ghost scale_spec = pow10((18 - count) as nat);
        proof {
            lemma_number_of_bound(bytes@, next as int + 1, end as int);
            lemma_pow10_grows(count as nat, 18);
            lemma_pow10_grows(0, (18 - count) as nat);
            lemma_pow10_add(count as nat, (18 - count) as nat);
            assert(part * scale_spec < pow10(18)) by (nonlinear_arith)
                requires
                    part < pow10(count as nat),
                    pow10(count as nat) * scale_spec == pow10(18),
                    scale_spec >= 1,
            ;
        }
        let fraction = match read_number(bytes, next + 1, end, 1_000_000_000_000_000_000) {
            Some(value) => value,
            None => { return None; },
        };
        let scale = ten_to(18 - count);
        Some(((whole as u128) * 1_000_000_000_000_000_000 + fraction * scale, end))
    } else {
        Some(((whole as u128) * 1_000_000_000_000_000_000, next))
    }
}

fn timezone(bytes: &[u8], at: usize) -> (r: Option<Option<i16>>)
    requires
        at <= bytes@.len(),
    ensures
        r == timezone_at(bytes@, at as int),
{
    if at == bytes.len() {
        return Some(None);
    }
    if bytes[at] == 0x5a {
        return if at + 1 == bytes.len() {
            Some(Some(0))
        } else {
            None
        };
    }
    if bytes[at] == 0x2b || bytes[at] == 0x2d {
        let (hours, colon) = match two_digits(bytes, at + 1) {
            Some(found) => found,
            None => { return None; },
        };
        let next = match byte(bytes, colon, 0x3a) {
            Some(next) => next,
            None => { return None; },
        };
        let (minutes, end) = match two_digits(bytes, next) {
            Some(found) => found,
            None => { return None; },
        };
        if end != bytes.len() || hours > 14 || minutes > 59 || (hours == 14 && minutes != 0) {
            return None;
        }
        let offset: i16 = (hours as i16) * 60 + (minutes as i16);
        if bytes[at] == 0x2d {
            Some(Some(-offset))
        } else {
            Some(Some(offset))
        }
    } else {
        None
    }
}

fn leap_year(year: i64) -> (r: bool)
    ensures
        r == is_leap_year(year_magnitude(year)),
{
    let magnitude: u64 = if year < 0 {
        ((-(year + 1)) as u64) + 1
    } else {
        year as u64
    };
    (magnitude % 4 == 0 && magnitude % 100 != 0) || magnitude % 400 == 0
}

fn month_days(leap: bool, month: u8) -> (r: u8)
    ensures
        r == days_in_month(leap, month as nat),
{
    if month == 2 {
        if leap {
            29
        } else {
            28
        }
    } else if month == 4 || month == 6 || month == 9 || month == 11 {
        30
    } else {
        31
    }
}

/// Reads a value of one of the types of dates and times.
pub fn parse_date_time(kind: DateTimeKind, text: &str) -> (r: Option<DateTimeFields>)
    ensures
        r == date_time_of(kind, encode_utf8(text@)),
{
    let bytes = text.as_bytes();
    proof {
        lemma_pow10_values();
    }
    let (year_value, after_year) = if kind.with_year() {
        match year(bytes, 0) {
            Some(found) => found,
            None => { return None; },
        }
    } else if matches!(kind, DateTimeKind::Time) {
        (0, 0)
    } else {
        match byte(bytes, 0, 0x2d) {
            Some(next) => (0, next),
            None => { return None; },
        }
    };
    let (month, after_month) = if kind.with_month() {
        match byte(bytes, after_year, 0x2d) {
            None => { return None; },
            Some(next) => match two_digits(bytes, next) {
                Some(found) => found,
                None => { return None; },
            },
        }
    } else if matches!(kind, DateTimeKind::GDay) {
        match byte(bytes, after_year, 0x2d) {
            Some(next) => (0, next),
            None => { return None; },
        }
    } else {
        (0, after_year)
    };
    let (day, after_day) = if kind.with_day() {
        match byte(bytes, after_month, 0x2d) {
            None => { return None; },
            Some(next) => match two_digits(bytes, next) {
                Some(found) => found,
                None => { return None; },
            },
        }
    } else {
        (0, after_month)
    };
    let (hour, minute, second, after_time) = if kind.with_time() {
        let start = if matches!(kind, DateTimeKind::DateTime) {
            match byte(bytes, after_day, 0x54) {
                Some(next) => next,
                None => { return None; },
            }
        } else {
            after_day
        };
        let (hour, first_colon) = match two_digits(bytes, start) {
            Some(found) => found,
            None => { return None; },
        };
        let next = match byte(bytes, first_colon, 0x3a) {
            Some(next) => next,
            None => { return None; },
        };
        let (minute, second_colon) = match two_digits(bytes, next) {
            Some(found) => found,
            None => { return None; },
        };
        let next = match byte(bytes, second_colon, 0x3a) {
            Some(next) => next,
            None => { return None; },
        };
        let (second, end) = match seconds(bytes, next) {
            Some(found) => found,
            None => { return None; },
        };
        (hour, minute, second, end)
    } else {
        (0, 0, 0, after_day)
    };
    let timezone_offset = match timezone(bytes, after_time) {
        Some(offset) => offset,
        None => { return None; },
    };
    let fields = DateTimeFields {
        year: year_value,
        month,
        day,
        hour,
        minute,
        second,
        timezone_offset,
    };
    if kind.with_month() && (month < 1 || month > 12) {
        return None;
    }
    if kind.with_day() {
        let leap = !kind.with_year() || leap_year(year_value);
        let in_month = if kind.with_month() {
            month
        } else {
            1
        };
        if day < 1 || day > month_days(leap, in_month) {
            return None;
        }
    }
    if kind.with_time() && (hour > 23 || minute > 59 || second >= 60_000_000_000_000_000_000) {
        return None;
    }
    Some(fields)
}

impl DateTimeFields {
    /// Whether two values have the same fields.
    pub fn is_identical_with(&self, other: &Self) -> (r: bool)
        ensures
            r == (*self == *other),
    {
        let same_offset = match (self.timezone_offset, other.timezone_offset) {
            (Some(a), Some(b)) => a == b,
            (None, None) => true,
            _ => false,
        };
        self.year == other.year && self.month == other.month && self.day == other.day
            && self.hour == other.hour && self.minute == other.minute && self.second
            == other.second && same_offset
    }
}

/// The canonical writing of a year: a minus sign where it is negative, and
/// its digits, four at least.
pub open spec fn year_bytes(year: i64) -> Seq<u8> {
    let magnitude = year_magnitude(year);
    let sign = if year < 0 {
        seq![0x2du8]
    } else {
        Seq::<u8>::empty()
    };
    if magnitude < 10000 {
        sign + padded(magnitude, 4)
    } else {
        sign + natural_bytes(magnitude)
    }
}

/// The canonical writing of seconds: two digits, and where there is a
/// fraction, a point and its digits without the zeros at their end.
pub open spec fn seconds_bytes(second: nat) -> Seq<u8> {
    let whole = padded(second / pow10(18), 2);
    if second % pow10(18) == 0 {
        whole
    } else {
        whole + seq![0x2eu8] + without_trailing_zeros(padded(second % pow10(18), 18))
    }
}

/// The canonical writing of a timezone: nothing where there is none, `Z` for
/// no offset, else a sign, the hours, a colon and the minutes.
pub open spec fn timezone_bytes(timezone_offset: Option<i16>) -> Seq<u8> {
    match timezone_offset {
        None => Seq::empty(),
        Some(offset) => if offset == 0 {
            seq![0x5au8]
        } else {
            let magnitude = if offset < 0 {
                (-(offset as int)) as nat
            } else {
                offset as nat
            };
            let sign = if offset < 0 {
                seq![0x2du8]
            } else {
                seq![0x2bu8]
            };
            sign + padded(magnitude / 60, 2) + seq![0x3au8] + padded(magnitude % 60, 2)
        },
    }
}

/// The canonical writing of the date of a value of some type.
pub open spec fn date_bytes(kind: DateTimeKind, fields: DateTimeFields) -> Seq<u8> {
    let year = if kind.has_year() {
        year_bytes(fields.year)
    } else if kind == DateTimeKind::Time {
        Seq::<u8>::empty()
    } else {
        seq![0x2du8]
    };
    let month = if kind.has_month() {
        seq![0x2du8] + padded(fields.month as nat, 2)
    } else if kind == DateTimeKind::GDay {
        seq![0x2du8]
    } else {
        Seq::<u8>::empty()
    };
    let day = if kind.has_day() {
        seq![0x2du8] + padded(fields.day as nat, 2)
    } else {
        Seq::<u8>::empty()
    };
    year + month + day
}

/// The canonical writing of the time of day of a value of some type.
pub open spec fn time_bytes(kind: DateTimeKind, fields: DateTimeFields) -> Seq<u8> {
    if kind.has_time() {
        let start = if kind == DateTimeKind::DateTime {
            seq![0x54u8]
        } else {
            Seq::<u8>::empty()
        };
        start + padded(fields.hour as nat, 2) + seq![0x3au8] + padded(fields.minute as nat, 2)
            + seq![0x3au8] + seconds_bytes(fields.second as nat)
    } else {
        Seq::empty()
    }
}

/// The canonical lexical form of a value of some type.
pub open spec fn date_time_bytes(kind: DateTimeKind, fields: DateTimeFields) -> Seq<u8> {
    date_bytes(kind, fields) + time_bytes(kind, fields) + timezone_bytes(fields.timezone_offset)
}

fn push_year(out: &mut Vec<u8>, year: i64)
    ensures
        final(out)@ == old(out)@ + year_bytes(year),
{
    let magnitude: u64 = if year < 0 {
        ((-(year + 1)) as u64) + 1
    } else {
        year as u64
    };
    if year < 0 {
        push_byte(out, 0x2d);
    }
    if magnitude < 10000 {
        push_padded(out, magnitude as u128, 4);
    } else {
        push_natural(out, magnitude as u128);
    }
    proof {
        assert(out@ =~= old(out)@ + year_bytes(year));
    }
}

fn push_seconds(out: &mut Vec<u8>, second: u128)
    ensures
        final(out)@ == old(out)@ + seconds_bytes(second as nat),
{
    proof {
        lemma_pow10_values();
    }
    let whole: u128 = second / 1_000_000_000_000_000_000;
    let part: u128 = second % 1_000_000_000_000_000_000;
    push_padded(out, whole, 2);
    if part != 0 {
        push_byte(out, 0x2e);
        push_fraction(out, part);
    }
    proof {
        assert(out@ =~= old(out)@ + seconds_bytes(second as nat));
    }
}

fn push_timezone(out: &mut Vec<u8>, timezone_offset: Option<i16>)
    ensures
        final(out)@ == old(out)@ + timezone_bytes(timezone_offset),
{
    match timezone_offset {
        None => {},
        Some(offset) => {
            if offset == 0 {
                push_byte(out, 0x5a);
            } else {
                let magnitude: u128 = if offset < 0 {
                    (-(offset as i32)) as u128
                } else {
                    offset as u128
                };
                if offset < 0 {
                    push_byte(out, 0x2d);
                } else {
                    push_byte(out, 0x2b);
                }
                push_padded(out, magnitude / 60, 2);
                push_byte(out, 0x3a);
                push_padded(out, magnitude % 60, 2);
            }
        },
    }
    proof {
        assert(out@ =~= old(out)@ + timezone_bytes(timezone_offset));
    }
}

/// Writes a value of one of the types of dates and times into `out`.
pub fn push_date_time(out: &mut Vec<u8>, kind: DateTimeKind, fields: &DateTimeFields)
    ensures
        final(out)@ == old(out)@ + date_time_bytes(kind, *fields),
{
    let ghost start = out@;
    if kind.with_year() {
        push_year(out, fields.year);
    } else if !matches!(kind, DateTimeKind::Time) {
        push_byte(out, 0x2d);
    }
    if kind.with_month() {
        push_byte(out, 0x2d);
        push_padded(out, fields.month as u128, 2);
    } else if matches!(kind, DateTimeKind::GDay) {
        push_byte(out, 0x2d);
    }
    if kind.with_day() {
        push_byte(out, 0x2d);
        push_padded(out, fields.day as u128, 2);
    }
    proof {
        assert(out@ =~= start + date_bytes(kind, *fields));
    }
    let ghost middle = out@;
    if kind.with_time() {
        if matches!(kind, DateTimeKind::DateTime) {
            push_byte(out, 0x54);
        }
        push_padded(out, fields.hour as u128, 2);
        push_byte(out, 0x3a);
        push_padded(out, fields.minute as u128, 2);
        push_byte(out, 0x3a);
        push_seconds(out, fields.second);
    }
    proof {
        assert(out@ =~= middle + time_bytes(kind, *fields));
    }
    push_timezone(out, fields.timezone_offset);
    proof {
        assert(out@ =~= start + date_time_bytes(kind, *fields));
    }
}

/// Every byte of the canonical lexical form of a value is below 128.
pub proof fn lemma_date_time_bytes_ascii(kind: DateTimeKind, fields: DateTimeFields)
    ensures
        is_ascii_bytes(date_time_bytes(kind, fields)),
{
    lemma_pow10_values();
    lemma_year_bytes_ascii(fields.year);
    lemma_padded_ascii(fields.month as nat, 2);
    lemma_padded_ascii(fields.day as nat, 2);
    lemma_padded_ascii(fields.hour as nat, 2);
    lemma_padded_ascii(fields.minute as nat, 2);
    lemma_seconds_bytes_ascii(fields.second as nat);
    lemma_timezone_bytes_ascii(fields.timezone_offset);
    let date = date_bytes(kind, fields);
    let time = time_bytes(kind, fields);
    let zone = timezone_bytes(fields.timezone_offset);
    assert(is_ascii_bytes(date));
    assert(is_ascii_bytes(time));
    assert(is_ascii_bytes(date + time + zone));
}

pub proof fn lemma_padded_ascii(n: nat, width: nat)
    ensures
        is_ascii_bytes(padded(n, width)),
{
    crate::model::lexical::lemma_padded(n, width);
    assert forall|i: int| 0 <= i < padded(n, width).len() implies #[trigger] padded(n, width)[i]
        < 128 by {
        assert(is_digit_byte(padded(n, width)[i]));
    }
}

pub proof fn lemma_fraction_ascii(part: nat)
    ensures
        is_ascii_bytes(without_trailing_zeros(padded(part, 18))),
{
    lemma_padded_ascii(part, 18);
    lemma_trimmed_ascii(padded(part, 18));
}

proof fn lemma_trimmed_ascii(bytes: Seq<u8>)
    requires
        is_ascii_bytes(bytes),
    ensures
        is_ascii_bytes(without_trailing_zeros(bytes)),
    decreases bytes.len(),
{
    if bytes.len() > 0 && bytes.last() == 0x30 {
        let front = bytes.drop_last();
        assert forall|i: int| 0 <= i < front.len() implies #[trigger] front[i] < 128 by {
            assert(front[i] == bytes[i]);
        }
        lemma_trimmed_ascii(front);
    }
}

proof fn lemma_year_bytes_ascii(year: i64)
    ensures
        is_ascii_bytes(year_bytes(year)),
{
    let magnitude = year_magnitude(year);
    lemma_padded_ascii(magnitude, 4);
    lemma_padded_ascii(magnitude, crate::model::lexical::digits_count(magnitude));
}

proof fn lemma_seconds_bytes_ascii(second: nat)
    ensures
        is_ascii_bytes(seconds_bytes(second)),
{
    lemma_padded_ascii(second / pow10(18), 2);
    lemma_fraction_ascii(second % pow10(18));
}

proof fn lemma_timezone_bytes_ascii(timezone_offset: Option<i16>)
    ensures
        is_ascii_bytes(timezone_bytes(timezone_offset)),
{
    match timezone_offset {
        None => {},
        Some(offset) => {
            let magnitude = if offset < 0 {
                (-(offset as int)) as nat
            } else {
                offset as nat
            };
            lemma_padded_ascii(magnitude / 60, 2);
            lemma_padded_ascii(magnitude % 60, 2);
        },
    }
}

/// The canonical lexical form of a value of some type, as a text.
pub open spec fn date_time_text(kind: DateTimeKind, fields: DateTimeFields) -> Seq<char> {
    ascii_text(date_time_bytes(kind, fields))
}

/// Writes a value of one of the types of dates and times.
pub fn format_date_time(kind: DateTimeKind, fields: &DateTimeFields) -> (r: String)
    ensures
        r@ == date_time_text(kind, *fields),
        encode_utf8(r@) == date_time_bytes(kind, *fields),
{
    let mut out: Vec<u8> = Vec::new();
    push_date_time(&mut out, kind, fields);
    proof {
        lemma_date_time_bytes_ascii(kind, *fields);
        assert(out@ =~= date_time_bytes(kind, *fields));
    }
    ascii_string(&out)
}

} // verus!

//! Reading a canonical lexical form gives the value back: for the dates,
//! the times and the durations.

use crate::model::date_time::{
    date_at, date_bytes, date_time_bytes, date_time_of, fields_are_valid, seconds_at,
    seconds_bytes, time_at, time_bytes, timezone_at, timezone_bytes, two_digits_at, year_at,
    year_bytes, year_magnitude, DateTimeFields, DateTimeKind,
};
use crate::model::decimal::{lemma_without_trailing_zeros, without_trailing_zeros};
use crate::model::duration::{
    component_at, duration_bytes, duration_date_bytes, duration_of, duration_parts,
    duration_time_bytes, months_magnitude, part_bytes, seconds_component_at, seconds_magnitude,
    seconds_of_parts, seconds_part_bytes, Component, Duration, DurationKind,
};
use crate::model::lexical::{
    digit_of, digits_count, digits_end, digits_in, is_digit_byte, lemma_digits_count,
    lemma_digits_end_is, lemma_natural_bytes, lemma_number_of_bound, lemma_number_of_same,
    lemma_padded, lemma_pow10_values, natural_bytes, number_of, padded, pow10,
};
use vstd::prelude::*;

verus! {

/// Whether some bytes stand at a place of a text.
pub open spec fn stands_at(bytes: Seq<u8>, at: int, part: Seq<u8>) -> bool {
    &&& 0 <= at
    &&& at + part.len() <= bytes.len()
    &&& forall|i: int| 0 <= i < part.len() ==> bytes[at + i] == #[trigger] part[i]
}

/// Whether a text ends at a place, or goes on there with a byte that is
/// neither a digit nor a point.
pub open spec fn number_ends_at(bytes: Seq<u8>, at: int) -> bool {
    at == bytes.len() || (0 <= at < bytes.len() && !is_digit_byte(bytes[at]) && bytes[at] != 0x2e)
}

/// The parts of a text that is made of two stand one behind the other.
proof fn lemma_stands_concat(bytes: Seq<u8>, at: int, a: Seq<u8>, b: Seq<u8>)
    requires
        stands_at(bytes, at, a + b),
    ensures
        stands_at(bytes, at, a),
        stands_at(bytes, at + a.len(), b),
{
    let whole = a + b;
    assert forall|i: int| 0 <= i < a.len() implies bytes[at + i] == #[trigger] a[i] by {
        assert(whole[i] == a[i]);
    }
    assert forall|i: int| 0 <= i < b.len() implies bytes[at + a.len() + i] == #[trigger] b[i] by {
        assert(whole[a.len() + i] == b[i]);
    }
}

/// Some digits that stand at a place of a text, and end there, are read
/// as the number that they denote.
proof fn lemma_digits_stand(bytes: Seq<u8>, at: int, digits: Seq<u8>)
    requires
        stands_at(bytes, at, digits),
        digits_in(digits, 0, digits.len() as int),
        at + digits.len() == bytes.len() || !is_digit_byte(bytes[at + digits.len()]),
    ensures
        digits_end(bytes, at) == at + digits.len(),
        number_of(bytes, at, at + digits.len()) == number_of(digits, 0, digits.len() as int),
{
    assert(digits_in(bytes, at, at + digits.len())) by {
        assert forall|i: int| at <= i < at + digits.len() implies is_digit_byte(
            #[trigger] bytes[i],
        ) by {
            assert(bytes[at + (i - at)] == digits[i - at]);
        }
    }
    lemma_digits_end_is(bytes, at, at + digits.len());
    assert forall|i: int| 0 <= i < digits.len() implies digits[i] == #[trigger] bytes[i + at] by {
        assert(bytes[at + i] == digits[i]);
    }
    lemma_number_of_same(digits, bytes, 0, digits.len() as int, at);
}

/// Two digits that stand at a place are read as their number.
proof fn lemma_two_digits(bytes: Seq<u8>, at: int, n: nat)
    requires
        n < 100,
        stands_at(bytes, at, padded(n, 2)),
    ensures
        two_digits_at(bytes, at) == Some((n, at + 2)),
{
    let digits = padded(n, 2);
    lemma_padded(n, 2);
    lemma_pow10_values();
    assert(bytes[at + 0] == digits[0]);
    assert(bytes[at + 1] == digits[1]);
    assert(is_digit_byte(digits[0]) && is_digit_byte(digits[1]));
    assert(number_of(digits, 0, 2) == (number_of(digits, 0, 0) * 10 + digit_of(digits[0])) * 10
        + digit_of(digits[1])) by {
        assert(number_of(digits, 0, 2) == number_of(digits, 0, 1) * 10 + digit_of(digits[1]));
        assert(number_of(digits, 0, 1) == number_of(digits, 0, 0) * 10 + digit_of(digits[0]));
    }
    assert(n % 100 == n);
}

/// The number that some digits denote is the first digit times a power of
/// ten and what the other digits denote.
proof fn lemma_number_of_front(bytes: Seq<u8>, from: int, to: int)
    requires
        digits_in(bytes, from, to),
        from < to,
    ensures
        number_of(bytes, from, to) == digit_of(bytes[from]) * pow10((to - from - 1) as nat)
            + number_of(bytes, from + 1, to),
    decreases to - from,
{
    if to - from == 1 {
        assert(number_of(bytes, from, to) == number_of(bytes, from, from) * 10 + digit_of(
            bytes[from],
        ));
        assert(pow10(0) == 1);
        assert(digit_of(bytes[from]) * 1 == digit_of(bytes[from])) by (nonlinear_arith);
    } else {
        lemma_number_of_front(bytes, from, to - 1);
        let d = digit_of(bytes[from]);
        let p = pow10((to - from - 2) as nat);
        assert(pow10((to - from - 1) as nat) == 10 * p);
        assert((d * p + number_of(bytes, from + 1, to - 1)) * 10 == d * (10 * p) + number_of(
            bytes,
            from + 1,
            to - 1,
        ) * 10) by (nonlinear_arith);
    }
}

/// The digits of a number that is not zero begin with no zero.
proof fn lemma_natural_bytes_front(n: nat)
    requires
        n >= 10,
    ensures
        natural_bytes(n)[0] != 0x30,
{
    let digits = natural_bytes(n);
    let count = digits_count(n);
    lemma_natural_bytes(n);
    lemma_digits_count(n);
    lemma_number_of_front(digits, 0, count as int);
    assert(digits_in(digits, 1, count as int));
    lemma_number_of_bound(digits, 1, count as int);
    if digits[0] == 0x30 {
        assert(digit_of(digits[0]) == 0);
        assert(0 * pow10((count - 1) as nat) == 0) by (nonlinear_arith);
    }
}

/// The canonical writing of a year is read as the year.
proof fn lemma_year(bytes: Seq<u8>, year: i64)
    requires
        stands_at(bytes, 0, year_bytes(year)),
        number_ends_at(bytes, year_bytes(year).len() as int),
    ensures
        year_at(bytes, 0) == Some((year, year_bytes(year).len() as int)),
{
    let magnitude = year_magnitude(year);
    let sign = if year < 0 {
        seq![0x2du8]
    } else {
        Seq::<u8>::empty()
    };
    let digits = if magnitude < 10000 {
        padded(magnitude, 4)
    } else {
        natural_bytes(magnitude)
    };
    let text = year_bytes(year);
    assert(text == sign + digits);
    lemma_pow10_values();
    lemma_padded(magnitude, 4);
    lemma_natural_bytes(magnitude);
    lemma_digits_count(magnitude);
    assert(digits.len() >= 4 && digits_in(digits, 0, digits.len() as int) && number_of(
        digits,
        0,
        digits.len() as int,
    ) == magnitude && (digits.len() > 4 ==> digits[0] != 0x30)) by {
        if magnitude < 10000 {
            assert(magnitude % pow10(4) == magnitude);
        } else {
            let count = digits_count(magnitude);
            if count <= 4 {
                crate::model::lexical::lemma_pow10_grows(count, 4);
            }
            lemma_natural_bytes_front(magnitude);
        }
    }
    lemma_stands_concat(bytes, 0, sign, digits);
    let start = sign.len() as int;
    assert(bytes[0int + 0] == text[0]);
    assert(is_digit_byte(digits[0]));
    if year < 0 {
        assert(text[0] == 0x2d);
    } else {
        assert(text[0] == digits[0]);
    }
    assert(text.len() == start + digits.len());
    lemma_digits_stand(bytes, start, digits);
    assert(bytes[start + 0] == digits[0]);
}

/// The canonical writing of seconds is read as the seconds.
proof fn lemma_seconds(bytes: Seq<u8>, at: int, second: nat)
    requires
        second < 60 * pow10(18),
        stands_at(bytes, at, seconds_bytes(second)),
        number_ends_at(bytes, at + seconds_bytes(second).len()),
    ensures
        seconds_at(bytes, at) == Some((second, at + seconds_bytes(second).len())),
{
    lemma_pow10_values();
    let scale = pow10(18);
    let whole = second / scale;
    let part = second % scale;
    assert(whole < 60 && second == whole * scale + part) by (nonlinear_arith)
        requires
            scale == 1_000_000_000_000_000_000,
            second < 60 * scale,
            whole == second / scale,
            part == second % scale,
    ;
    let first = padded(whole, 2);
    lemma_padded(whole, 2);
    if part == 0 {
        assert(seconds_bytes(second) == first);
        lemma_two_digits(bytes, at, whole);
    } else {
        let full = padded(part, 18);
        let digits = without_trailing_zeros(full);
        lemma_padded(part, 18);
        lemma_without_trailing_zeros(full);
        let text = seconds_bytes(second);
        assert(text == first + seq![0x2eu8] + digits);
        lemma_stands_concat(bytes, at, first + seq![0x2eu8], digits);
        lemma_stands_concat(bytes, at, first, seq![0x2eu8]);
        lemma_two_digits(bytes, at, whole);
        assert(bytes[at + 2 + 0] == seq![0x2eu8][0]);
        assert(part % scale == part);
        let read = number_of(digits, 0, digits.len() as int);
        let lost = pow10((18 - digits.len()) as nat);
        assert(part == read * lost);
        assert(digits.len() > 0) by {
            if digits.len() == 0 {
                assert(read == 0);
                assert(0 * lost == 0) by (nonlinear_arith);
            }
        }
        assert(digits_in(digits, 0, digits.len() as int)) by {
            assert forall|i: int| 0 <= i < digits.len() implies is_digit_byte(
                #[trigger] digits[i],
            ) by {
                assert(digits[i] == full.take(digits.len() as int)[i]);
                assert(is_digit_byte(full[i]));
            }
        }
        assert((first + seq![0x2eu8]).len() == 3);
        lemma_digits_stand(bytes, at + 3, digits);
    }
}

/// The canonical writing of a timezone, from a place up to the end of a
/// text, is read as the timezone.
proof fn lemma_timezone(bytes: Seq<u8>, at: int, timezone_offset: Option<i16>)
    requires
        stands_at(bytes, at, timezone_bytes(timezone_offset)),
        at + timezone_bytes(timezone_offset).len() == bytes.len(),
        timezone_offset matches Some(offset) ==> -840 <= offset <= 840,
    ensures
        timezone_at(bytes, at) == Some(timezone_offset),
{
    let text = timezone_bytes(timezone_offset);
    match timezone_offset {
        None => {},
        Some(offset) => {
            if offset == 0 {
                assert(bytes[at + 0] == text[0]);
            } else {
                let magnitude = if offset < 0 {
                    (-(offset as int)) as nat
                } else {
                    offset as nat
                };
                let sign = if offset < 0 {
                    seq![0x2du8]
                } else {
                    seq![0x2bu8]
                };
                let hours = padded(magnitude / 60, 2);
                let minutes = padded(magnitude % 60, 2);
                lemma_padded(magnitude / 60, 2);
                lemma_padded(magnitude % 60, 2);
                assert(text == sign + hours + seq![0x3au8] + minutes);
                lemma_stands_concat(bytes, at, sign + hours + seq![0x3au8], minutes);
                lemma_stands_concat(bytes, at, sign + hours, seq![0x3au8]);
                lemma_stands_concat(bytes, at, sign, hours);
                assert(bytes[at + 0] == sign[0]);
                assert(bytes[at + 3 + 0] == seq![0x3au8][0]);
                lemma_two_digits(bytes, at + 1, magnitude / 60);
                lemma_two_digits(bytes, at + 4, magnitude % 60);
                assert(text.len() == 6);
            }
        },
    }
}

/// The canonical writing of the date of a value is read as its date.
proof fn lemma_date(kind: DateTimeKind, fields: DateTimeFields, bytes: Seq<u8>)
    requires
        fields_are_valid(kind, fields),
        stands_at(bytes, 0, date_bytes(kind, fields)),
        kind == DateTimeKind::GYear ==> number_ends_at(
            bytes,
            date_bytes(kind, fields).len() as int,
        ),
    ensures
        date_at(kind, bytes) == Some(
            (
                fields.year,
                fields.month as nat,
                fields.day as nat,
                date_bytes(kind, fields).len() as int,
            ),
        ),
{
    let hyphen = seq![0x2du8];
    let year = if kind.has_year() {
        year_bytes(fields.year)
    } else if kind == DateTimeKind::Time {
        Seq::<u8>::empty()
    } else {
        hyphen
    };
    let month = if kind.has_month() {
        hyphen + padded(fields.month as nat, 2)
    } else if kind == DateTimeKind::GDay {
        hyphen
    } else {
        Seq::<u8>::empty()
    };
    let day = if kind.has_day() {
        hyphen + padded(fields.day as nat, 2)
    } else {
        Seq::<u8>::empty()
    };
    assert(date_bytes(kind, fields) == year + month + day);
    lemma_stands_concat(bytes, 0, year + month, day);
    lemma_stands_concat(bytes, 0, year, month);
    lemma_padded(fields.month as nat, 2);
    lemma_padded(fields.day as nat, 2);
    let after_year = year.len() as int;
    let after_month = after_year + month.len();
    if kind.has_year() {
        if month.len() > 0 {
            assert(bytes[after_year + 0] == month[0]);
            assert(month[0] == 0x2d);
        } else {
            assert(day.len() == 0);
        }
        lemma_year(bytes, fields.year);
    } else if kind != DateTimeKind::Time {
        assert(bytes[0int + 0] == year[0]);
    }
    if kind.has_month() {
        lemma_stands_concat(bytes, after_year, hyphen, padded(fields.month as nat, 2));
        assert(bytes[after_year + 0] == hyphen[0]);
        lemma_two_digits(bytes, after_year + 1, fields.month as nat);
    } else if kind == DateTimeKind::GDay {
        assert(bytes[after_year + 0] == hyphen[0]);
    }
    if kind.has_day() {
        lemma_stands_concat(bytes, after_month, hyphen, padded(fields.day as nat, 2));
        assert(bytes[after_month + 0] == hyphen[0]);
        lemma_two_digits(bytes, after_month + 1, fields.day as nat);
    }
}

/// The canonical writing of the time of day of a value is read as its time.
proof fn lemma_time(kind: DateTimeKind, fields: DateTimeFields, bytes: Seq<u8>, at: int)
    requires
        fields_are_valid(kind, fields),
        stands_at(bytes, at, time_bytes(kind, fields)),
        number_ends_at(bytes, at + time_bytes(kind, fields).len()),
    ensures
        time_at(kind, bytes, at) == Some(
            (
                fields.hour as nat,
                fields.minute as nat,
                fields.second as nat,
                at + time_bytes(kind, fields).len(),
            ),
        ),
{
    if kind.has_time() {
        let start = if kind == DateTimeKind::DateTime {
            seq![0x54u8]
        } else {
            Seq::<u8>::empty()
        };
        let colon = seq![0x3au8];
        let hour = padded(fields.hour as nat, 2);
        let minute = padded(fields.minute as nat, 2);
        let second = seconds_bytes(fields.second as nat);
        lemma_padded(fields.hour as nat, 2);
        lemma_padded(fields.minute as nat, 2);
        assert(time_bytes(kind, fields) == start + hour + colon + minute + colon + second);
        lemma_stands_concat(bytes, at, start + hour + colon + minute + colon, second);
        lemma_stands_concat(bytes, at, start + hour + colon + minute, colon);
        lemma_stands_concat(bytes, at, start + hour + colon, minute);
        lemma_stands_concat(bytes, at, start + hour, colon);
        lemma_stands_concat(bytes, at, start, hour);
        let after_start = at + start.len();
        if kind == DateTimeKind::DateTime {
            assert(bytes[at + 0] == start[0]);
        }
        lemma_two_digits(bytes, after_start, fields.hour as nat);
        assert(bytes[after_start + 2 + 0] == colon[0]);
        lemma_two_digits(bytes, after_start + 3, fields.minute as nat);
        assert(bytes[after_start + 5 + 0] == colon[0]);
        lemma_seconds(bytes, after_start + 6, fields.second as nat);
    }
}

/// Reading the canonical lexical form of a date or of a time gives the
/// value back.
pub proof fn lemma_date_time_round_trip(kind: DateTimeKind, fields: DateTimeFields)
    requires
        fields_are_valid(kind, fields),
    ensures
        date_time_of(kind, date_time_bytes(kind, fields)) == Some(fields),
{
    let date = date_bytes(kind, fields);
    let time = time_bytes(kind, fields);
    let timezone = timezone_bytes(fields.timezone_offset);
    let bytes = date_time_bytes(kind, fields);
    assert(bytes == date + time + timezone);
    assert(stands_at(bytes, 0, date + time + timezone));
    lemma_stands_concat(bytes, 0, date + time, timezone);
    lemma_stands_concat(bytes, 0, date, time);
    let after_date = date.len() as int;
    let after_time = after_date + time.len();
    assert(number_ends_at(bytes, after_time)) by {
        if timezone.len() > 0 {
            assert(bytes[after_time + 0] == timezone[0]);
        }
    }
    if kind == DateTimeKind::GYear {
        assert(time.len() == 0);
    }
    lemma_date(kind, fields, bytes);
    lemma_time(kind, fields, bytes, after_date);
    lemma_timezone(bytes, after_time, fields.timezone_offset);
}

/// Whether a duration is one of some type: its months and its seconds have
/// the same sign, a duration of years and months has no seconds, and one of
/// days and time has no months.
pub open spec fn duration_is_valid(kind: DurationKind, d: Duration) -> bool {
    &&& (d.months >= 0 && d.seconds >= 0) || (d.months <= 0 && d.seconds <= 0)
    &&& kind == DurationKind::YearMonthDuration ==> d.seconds == 0
    &&& kind == DurationKind::DayTimeDuration ==> d.months == 0
}

/// No part stands at a place at which no digit stands.
proof fn lemma_no_part(bytes: Seq<u8>, at: int, letter: u8)
    requires
        0 <= at,
        at >= bytes.len() || !is_digit_byte(bytes[at]),
    ensures
        component_at(bytes, at, letter) == (Component { value: 0, next: at, present: false }),
        digits_end(bytes, at) == at,
{
}

/// A number with a letter behind it, at a place, is read as the part of
/// that letter, and as the part of no other letter.
proof fn lemma_part_stands(bytes: Seq<u8>, at: int, value: nat, letter: u8, asked: u8)
    requires
        stands_at(bytes, at, natural_bytes(value) + seq![letter]),
        !is_digit_byte(letter),
    ensures
        digits_end(bytes, at) == at + natural_bytes(value).len(),
        at < digits_end(bytes, at) < bytes.len(),
        bytes[digits_end(bytes, at)] == letter,
        number_of(bytes, at, digits_end(bytes, at)) == value,
        component_at(bytes, at, asked) == if asked == letter {
            Component { value, next: at + natural_bytes(value).len() + 1, present: true }
        } else {
            Component { value: 0, next: at, present: false }
        },
{
    let digits = natural_bytes(value);
    lemma_natural_bytes(value);
    lemma_digits_count(value);
    lemma_stands_concat(bytes, at, digits, seq![letter]);
    assert(bytes[at + digits.len() + 0] == seq![letter][0]);
    lemma_digits_stand(bytes, at, digits);
}

/// The parts of the date of a duration, as they are written in front of
/// the time or of the end of the text, are read as they are.
proof fn lemma_duration_date(bytes: Seq<u8>, at: int, years: nat, months: nat, days: nat)
    requires
        stands_at(
            bytes,
            at,
            part_bytes(years, 0x59) + part_bytes(months, 0x4d) + part_bytes(days, 0x44),
        ),
        ({
            let after = at + (part_bytes(years, 0x59) + part_bytes(months, 0x4d) + part_bytes(
                days,
                0x44,
            )).len();
            after == bytes.len() || bytes[after] == 0x54
        }),
    ensures
        ({
            let y = component_at(bytes, at, 0x59);
            let m = component_at(bytes, y.next, 0x4d);
            let d = component_at(bytes, m.next, 0x44);
            &&& y.value == years && y.present == (years > 0)
            &&& m.value == months && m.present == (months > 0)
            &&& d.value == days && d.present == (days > 0)
            &&& d.next == at + (part_bytes(years, 0x59) + part_bytes(months, 0x4d) + part_bytes(
                days,
                0x44,
            )).len()
        }),
{
    let y = part_bytes(years, 0x59);
    let m = part_bytes(months, 0x4d);
    let d = part_bytes(days, 0x44);
    lemma_stands_concat(bytes, at, y + m, d);
    lemma_stands_concat(bytes, at, y, m);
    let after_years = at + y.len();
    let after_months = after_years + m.len();
    let after = after_months + d.len();
    if days > 0 {
        lemma_part_stands(bytes, after_months, days, 0x44, 0x44);
        lemma_part_stands(bytes, after_months, days, 0x44, 0x4d);
        lemma_part_stands(bytes, after_months, days, 0x44, 0x59);
    } else {
        lemma_no_part(bytes, after, 0x44);
        lemma_no_part(bytes, after, 0x4d);
        lemma_no_part(bytes, after, 0x59);
    }
    if months > 0 {
        lemma_part_stands(bytes, after_years, months, 0x4d, 0x4d);
        lemma_part_stands(bytes, after_years, months, 0x4d, 0x59);
    }
    if years > 0 {
        lemma_part_stands(bytes, at, years, 0x59, 0x59);
    }
}

/// The seconds of a duration, as they are written at the end of a text, are
/// read as they are.
proof fn lemma_duration_seconds(bytes: Seq<u8>, at: int, whole: nat, fraction: nat)
    requires
        fraction < pow10(18),
        stands_at(bytes, at, seconds_part_bytes(whole, fraction)),
        at + seconds_part_bytes(whole, fraction).len() == bytes.len(),
    ensures
        seconds_component_at(bytes, at) == Some(
            Component {
                value: if whole == 0 && fraction == 0 {
                    0
                } else {
                    whole * pow10(18) + fraction
                },
                next: if whole == 0 && fraction == 0 {
                    at
                } else {
                    bytes.len() as int
                },
                present: !(whole == 0 && fraction == 0),
            },
        ),
        whole > 0 || fraction > 0 ==> component_at(bytes, at, 0x48) == (Component {
            value: 0,
            next: at,
            present: false,
        }) && component_at(bytes, at, 0x4d) == (Component { value: 0, next: at, present: false }),
{
    lemma_pow10_values();
    if whole == 0 && fraction == 0 {
        lemma_no_part(bytes, at, 0x53);
    } else if fraction == 0 {
        lemma_part_stands(bytes, at, whole, 0x53, 0x53);
        lemma_part_stands(bytes, at, whole, 0x53, 0x48);
        lemma_part_stands(bytes, at, whole, 0x53, 0x4d);
        assert(whole * pow10(18) + 0 == whole * pow10(18));
    } else {
        let first = natural_bytes(whole);
        let full = padded(fraction, 18);
        let digits = without_trailing_zeros(full);
        lemma_padded(fraction, 18);
        lemma_without_trailing_zeros(full);
        lemma_natural_bytes(whole);
        lemma_digits_count(whole);
        let text = seconds_part_bytes(whole, fraction);
        assert(text == first + seq![0x2eu8] + digits + seq![0x53u8]);
        lemma_stands_concat(bytes, at, first + seq![0x2eu8] + digits, seq![0x53u8]);
        lemma_stands_concat(bytes, at, first + seq![0x2eu8], digits);
        lemma_part_stands(bytes, at, whole, 0x2e, 0x48);
        lemma_part_stands(bytes, at, whole, 0x2e, 0x4d);
        let point = at + first.len();
        assert(fraction % pow10(18) == fraction);
        let read = number_of(digits, 0, digits.len() as int);
        let lost = pow10((18 - digits.len()) as nat);
        assert(fraction == read * lost);
        assert(digits.len() > 0) by {
            if digits.len() == 0 {
                assert(read == 0);
                assert(0 * lost == 0) by (nonlinear_arith);
            }
        }
        assert(digits_in(digits, 0, digits.len() as int)) by {
            assert forall|i: int| 0 <= i < digits.len() implies is_digit_byte(
                #[trigger] digits[i],
            ) by {
                assert(digits[i] == full.take(digits.len() as int)[i]);
                assert(is_digit_byte(full[i]));
            }
        }
        assert((first + seq![0x2eu8]).len() == first.len() + 1);
        assert(bytes[point + 1 + digits.len() + 0] == seq![0x53u8][0]);
        lemma_digits_stand(bytes, point + 1, digits);
    }
}

/// The parts of the time of a duration, as they are written at the end of
/// a text, are read as they are.
proof fn lemma_duration_time(
    bytes: Seq<u8>,
    at: int,
    hours: nat,
    minutes: nat,
    whole: nat,
    fraction: nat,
)
    requires
        fraction < pow10(18),
        stands_at(
            bytes,
            at,
            part_bytes(hours, 0x48) + part_bytes(minutes, 0x4d) + seconds_part_bytes(
                whole,
                fraction,
            ),
        ),
        at + (part_bytes(hours, 0x48) + part_bytes(minutes, 0x4d) + seconds_part_bytes(
            whole,
            fraction,
        )).len() == bytes.len(),
    ensures
        ({
            let h = component_at(bytes, at, 0x48);
            let m = component_at(bytes, h.next, 0x4d);
            &&& h.value == hours && h.present == (hours > 0)
            &&& m.value == minutes && m.present == (minutes > 0)
            &&& seconds_component_at(bytes, m.next) matches Some(s) && s.next == bytes.len()
                && s.present == (whole > 0 || fraction > 0) && s.value == (if whole == 0
                && fraction == 0 {
                0
            } else {
                whole * pow10(18) + fraction
            })
        }),
{
    let h = part_bytes(hours, 0x48);
    let m = part_bytes(minutes, 0x4d);
    let s = seconds_part_bytes(whole, fraction);
    lemma_stands_concat(bytes, at, h + m, s);
    lemma_stands_concat(bytes, at, h, m);
    let after_hours = at + h.len();
    let after_minutes = after_hours + m.len();
    lemma_duration_seconds(bytes, after_minutes, whole, fraction);
    if whole == 0 && fraction == 0 {
        lemma_no_part(bytes, after_minutes, 0x48);
        lemma_no_part(bytes, after_minutes, 0x4d);
    }
    if minutes > 0 {
        lemma_part_stands(bytes, after_hours, minutes, 0x4d, 0x4d);
        lemma_part_stands(bytes, after_hours, minutes, 0x4d, 0x48);
    }
    if hours > 0 {
        lemma_part_stands(bytes, at, hours, 0x48, 0x48);
    }
}

/// A number of seconds is its days, its hours, its minutes and what is
/// left, and has some time where it is no whole number of days.
proof fn lemma_seconds_split(whole: nat)
    ensures
        whole == (whole / 86400) * 86400 + ((whole % 86400) / 3600) * 3600 + ((whole % 3600)
            / 60) * 60 + whole % 60,
        whole % 86400 != 0 ==> (whole % 86400) / 3600 > 0 || (whole % 3600) / 60 > 0 || whole
            % 60 > 0,
        whole % 86400 == 0 ==> (whole % 86400) / 3600 == 0 && (whole % 3600) / 60 == 0 && whole
            % 60 == 0,
{
    let days = whole / 86400;
    let in_day = whole % 86400;
    let hours = in_day / 3600;
    let in_hour = in_day % 3600;
    assert(whole % 3600 == in_hour) by {
        assert(whole == days * 86400 + in_day);
        assert(whole == (days * 24 + hours) * 3600 + in_hour);
        vstd::arithmetic::div_mod::lemma_fundamental_div_mod_converse(
            whole as int,
            3600,
            (days * 24 + hours) as int,
            in_hour as int,
        );
    }
    let minutes = in_hour / 60;
    let left = in_hour % 60;
    assert(whole % 60 == left) by {
        assert(whole == ((days * 24 + hours) * 60 + minutes) * 60 + left);
        vstd::arithmetic::div_mod::lemma_fundamental_div_mod_converse(
            whole as int,
            60,
            ((days * 24 + hours) * 60 + minutes) as int,
            left as int,
        );
    }
}

/// The sign of a duration as it is written: a minus sign where it is
/// negative, and `P`.
pub open spec fn duration_sign(negative: bool) -> Seq<u8> {
    if negative {
        seq![0x2du8, 0x50u8]
    } else {
        seq![0x50u8]
    }
}

/// A duration of nothing of years and months is read as it is written.
proof fn lemma_no_months()
    ensures
        duration_of(DurationKind::YearMonthDuration, seq![0x50u8, 0x30u8, 0x4du8]) == Some(
            Duration { months: 0, seconds: 0 },
        ),
{
    let bytes = seq![0x50u8, 0x30u8, 0x4du8];
    let zero = natural_bytes(0);
    assert(zero =~= seq![0x30u8]) by {
        assert(digits_count(0) == 1);
        assert(padded(0, 1) == padded(0, 0).push(0x30u8));
        assert(padded(0, 0) =~= Seq::<u8>::empty());
    }
    assert(stands_at(bytes, 1, zero + seq![0x4du8]));
    lemma_part_stands(bytes, 1, 0, 0x4d, 0x59);
    lemma_part_stands(bytes, 1, 0, 0x4d, 0x4d);
    lemma_no_part(bytes, 3, 0x44);
    lemma_pow10_values();
    assert(seconds_of_parts(0, 0, 0, 0) == 0) by {
        assert((0 * 86400 + 0 * 3600 + 0 * 60) * pow10(18) == 0) by (nonlinear_arith);
    }
}

/// A duration of nothing is read as it is written.
proof fn lemma_no_seconds(kind: DurationKind)
    requires
        kind != DurationKind::YearMonthDuration,
    ensures
        duration_of(kind, seq![0x50u8, 0x54u8, 0x30u8, 0x53u8]) == Some(
            Duration { months: 0, seconds: 0 },
        ),
{
    let bytes = seq![0x50u8, 0x54u8, 0x30u8, 0x53u8];
    let zero = natural_bytes(0);
    assert(zero =~= seq![0x30u8]) by {
        assert(digits_count(0) == 1);
        assert(padded(0, 1) == padded(0, 0).push(0x30u8));
        assert(padded(0, 0) =~= Seq::<u8>::empty());
    }
    lemma_no_part(bytes, 1, 0x59);
    lemma_no_part(bytes, 1, 0x4d);
    lemma_no_part(bytes, 1, 0x44);
    assert(stands_at(bytes, 2, zero + seq![0x53u8]));
    lemma_part_stands(bytes, 2, 0, 0x53, 0x48);
    lemma_part_stands(bytes, 2, 0, 0x53, 0x4d);
    lemma_part_stands(bytes, 2, 0, 0x53, 0x53);
    lemma_pow10_values();
    assert(0 * pow10(18) == 0) by (nonlinear_arith);
    assert(seconds_of_parts(0, 0, 0, 0) == 0) by {
        assert((0 * 86400 + 0 * 3600 + 0 * 60) * pow10(18) == 0) by (nonlinear_arith);
    }
}

/// Whether a text is cut into some parts of a duration, up to its end.
pub open spec fn parts_are(
    bytes: Seq<u8>,
    negative: bool,
    years: nat,
    months: nat,
    days: nat,
    has_time: bool,
    hours: nat,
    minutes: nat,
    seconds: nat,
    with_seconds: bool,
) -> bool {
    let parts = duration_parts(bytes);
    &&& parts.negative == negative
    &&& parts.starts
    &&& parts.years.value == years && parts.years.present == (years > 0)
    &&& parts.months.value == months && parts.months.present == (months > 0)
    &&& parts.days.value == days && parts.days.present == (days > 0)
    &&& parts.has_time == has_time
    &&& parts.hours.value == hours && parts.hours.present == (hours > 0)
    &&& parts.minutes.value == minutes && parts.minutes.present == (minutes > 0)
    &&& parts.seconds matches Some(read) && read.next == bytes.len() && read.present
        == with_seconds && read.value == seconds
}

/// The parts of a duration that is written without a time are read as they
/// are.
proof fn lemma_parts_of_date(
    bytes: Seq<u8>,
    negative: bool,
    years: nat,
    months: nat,
    days: nat,
)
    requires
        bytes == duration_sign(negative) + (part_bytes(years, 0x59) + part_bytes(months, 0x4d)
            + part_bytes(days, 0x44)),
    ensures
        parts_are(bytes, negative, years, months, days, false, 0, 0, 0, false),
{
    let sign = duration_sign(negative);
    let date = part_bytes(years, 0x59) + part_bytes(months, 0x4d) + part_bytes(days, 0x44);
    let start = sign.len() as int;
    assert(stands_at(bytes, 0, sign + date));
    lemma_stands_concat(bytes, 0, sign, date);
    assert(bytes[0int + 0] == sign[0]);
    assert(bytes[0 + (start - 1)] == sign[start - 1]);
    lemma_duration_date(bytes, start, years, months, days);
}

/// The parts of a duration that is written with a time are read as they
/// are.
proof fn lemma_parts_of_time(
    bytes: Seq<u8>,
    negative: bool,
    years: nat,
    months: nat,
    days: nat,
    hours: nat,
    minutes: nat,
    whole: nat,
    fraction: nat,
)
    requires
        fraction < pow10(18),
        bytes == duration_sign(negative) + (part_bytes(years, 0x59) + part_bytes(months, 0x4d)
            + part_bytes(days, 0x44)) + seq![0x54u8] + (part_bytes(hours, 0x48) + part_bytes(
            minutes,
            0x4d,
        ) + seconds_part_bytes(whole, fraction)),
    ensures
        parts_are(
            bytes,
            negative,
            years,
            months,
            days,
            true,
            hours,
            minutes,
            if whole == 0 && fraction == 0 {
                0
            } else {
                whole * pow10(18) + fraction
            },
            whole > 0 || fraction > 0,
        ),
{
    let sign = duration_sign(negative);
    let date = part_bytes(years, 0x59) + part_bytes(months, 0x4d) + part_bytes(days, 0x44);
    let time = part_bytes(hours, 0x48) + part_bytes(minutes, 0x4d) + seconds_part_bytes(
        whole,
        fraction,
    );
    let start = sign.len() as int;
    assert(stands_at(bytes, 0, sign + date + seq![0x54u8] + time));
    lemma_stands_concat(bytes, 0, sign + date + seq![0x54u8], time);
    lemma_stands_concat(bytes, 0, sign + date, seq![0x54u8]);
    lemma_stands_concat(bytes, 0, sign, date);
    assert(bytes[0int + 0] == sign[0]);
    assert(bytes[0 + (start - 1)] == sign[start - 1]);
    let after_date = start + date.len();
    assert(bytes[after_date + 0] == seq![0x54u8][0]);
    lemma_duration_date(bytes, start, years, months, days);
    lemma_duration_time(bytes, after_date + 1, hours, minutes, whole, fraction);
}

/// The duration that a text denotes whose parts are those of a duration.
proof fn lemma_duration_of_parts(
    kind: DurationKind,
    bytes: Seq<u8>,
    d: Duration,
    years: nat,
    months: nat,
    days: nat,
    has_time: bool,
    hours: nat,
    minutes: nat,
    seconds: nat,
    with_seconds: bool,
)
    requires
        duration_is_valid(kind, d),
        parts_are(
            bytes,
            d.months < 0 || d.seconds < 0,
            years,
            months,
            days,
            has_time,
            hours,
            minutes,
            seconds,
            with_seconds,
        ),
        years * 12 + months == months_magnitude(d),
        seconds_of_parts(days, hours, minutes, seconds) == seconds_magnitude(d),
        years > 0 || months > 0 || days > 0 || hours > 0 || minutes > 0 || with_seconds,
        has_time ==> hours > 0 || minutes > 0 || with_seconds,
        kind == DurationKind::YearMonthDuration ==> days == 0 && !has_time,
        kind == DurationKind::DayTimeDuration ==> years == 0 && months == 0,
    ensures
        duration_of(kind, bytes) == Some(d),
{
}

/// The months and the seconds of a duration by its parts.
proof fn lemma_duration_totals(d: Duration)
    ensures
        ({
            let months = months_magnitude(d);
            let seconds = seconds_magnitude(d);
            let whole = seconds / pow10(18);
            let fraction = seconds % pow10(18);
            &&& fraction < pow10(18)
            &&& seconds == 0 ==> whole == 0 && fraction == 0
            &&& (months / 12) * 12 + months % 12 == months
            &&& seconds_of_parts(
                whole / 86400,
                (whole % 86400) / 3600,
                (whole % 3600) / 60,
                if whole % 60 == 0 && fraction == 0 {
                    0
                } else {
                    (whole % 60) * pow10(18) + fraction
                },
            ) == seconds
            &&& whole % 86400 == 0 && fraction == 0 ==> seconds_of_parts(whole / 86400, 0, 0, 0)
                == seconds
            &&& seconds > 0 && whole % 86400 == 0 && fraction == 0 ==> whole / 86400 > 0
            &&& !(whole % 86400 == 0 && fraction == 0) ==> (whole % 86400) / 3600 > 0 || (whole
                % 3600) / 60 > 0 || whole % 60 > 0 || fraction > 0
        }),
{
    lemma_pow10_values();
    let scale = pow10(18);
    let seconds = seconds_magnitude(d);
    let whole = seconds / scale;
    let fraction = seconds % scale;
    let days = whole / 86400;
    let hours = (whole % 86400) / 3600;
    let minutes = (whole % 3600) / 60;
    let left = whole % 60;
    lemma_seconds_split(whole);
    assert(seconds == whole * scale + fraction && fraction < scale) by (nonlinear_arith)
        requires
            scale == 1_000_000_000_000_000_000,
            whole == seconds / scale,
            fraction == seconds % scale,
    ;
    assert((days * 86400 + hours * 3600 + minutes * 60) * scale + (left * scale + fraction)
        == whole * scale + fraction) by (nonlinear_arith)
        requires
            whole == days * 86400 + hours * 3600 + minutes * 60 + left,
    ;
    if left == 0 {
        assert(0 * scale == 0) by (nonlinear_arith);
    }
    if whole % 86400 == 0 {
        assert((days * 86400 + 0 * 3600 + 0 * 60) * scale + 0 == whole * scale)
            by (nonlinear_arith)
            requires
                whole == days * 86400,
        ;
        if fraction == 0 && seconds > 0 && days == 0 {
            assert(0 * scale == 0) by (nonlinear_arith);
        }
    }
}

/// Reading the canonical lexical form of a duration gives the duration
/// back.
#[verifier::rlimit(80)]
pub proof fn lemma_duration_round_trip(kind: DurationKind, d: Duration)
    requires
        duration_is_valid(kind, d),
    ensures
        duration_of(kind, duration_bytes(kind, d)) == Some(d),
{
    let months = months_magnitude(d);
    let seconds = seconds_magnitude(d);
    let whole = seconds / pow10(18);
    let fraction = seconds % pow10(18);
    let negative = d.months < 0 || d.seconds < 0;
    let bytes = duration_bytes(kind, d);
    let left = whole % 60;
    lemma_duration_totals(d);
    if months == 0 && seconds == 0 {
        if kind == DurationKind::YearMonthDuration {
            assert(bytes =~= seq![0x50u8, 0x30u8, 0x4du8]);
            lemma_no_months();
        } else {
            assert(bytes =~= seq![0x50u8, 0x54u8, 0x30u8, 0x53u8]);
            lemma_no_seconds(kind);
        }
    } else if whole % 86400 == 0 && fraction == 0 {
        assert(bytes == duration_sign(negative) + duration_date_bytes(months, whole));
        lemma_parts_of_date(bytes, negative, months / 12, months % 12, whole / 86400);
        lemma_duration_of_parts(
            kind,
            bytes,
            d,
            months / 12,
            months % 12,
            whole / 86400,
            false,
            0,
            0,
            0,
            false,
        );
    } else {
        assert(bytes == duration_sign(negative) + duration_date_bytes(months, whole)
            + seq![0x54u8] + duration_time_bytes(whole, fraction));
        lemma_parts_of_time(
            bytes,
            negative,
            months / 12,
            months % 12,
            whole / 86400,
            (whole % 86400) / 3600,
            (whole % 3600) / 60,
            left,
            fraction,
        );
        lemma_duration_of_parts(
            kind,
            bytes,
            d,
            months / 12,
            months % 12,
            whole / 86400,
            true,
            (whole % 86400) / 3600,
            (whole % 3600) / 60,
            if left == 0 && fraction == 0 {
                0
            } else {
                left * pow10(18) + fraction
            },
            left > 0 || fraction > 0,
        );
    }
}

/// A duration that is read from a text is one of its type.
pub proof fn lemma_read_duration_is_valid(kind: DurationKind, bytes: Seq<u8>)
    ensures
        duration_of(kind, bytes) matches Some(d) ==> duration_is_valid(kind, d),
{
    let parts = duration_parts(bytes);
    if duration_of(kind, bytes) is Some {
        let seconds = parts.seconds->Some_0;
        if kind == DurationKind::YearMonthDuration {
            assert(!parts.days.present && !parts.has_time);
            assert(parts.days.value == 0);
            assert(parts.hours.value == 0 && parts.minutes.value == 0 && seconds.value == 0);
            assert((0 * 86400 + 0 * 3600 + 0 * 60) * pow10(18) + 0 == 0) by (nonlinear_arith);
        }
        if kind == DurationKind::DayTimeDuration {
            assert(!parts.years.present && !parts.months.present);
            assert(parts.years.value == 0 && parts.months.value == 0);
        }
    }
}

/// A date or a time that is read from a text has its fields in order.
pub proof fn lemma_read_date_time_is_valid(kind: DateTimeKind, bytes: Seq<u8>)
    ensures
        date_time_of(kind, bytes) matches Some(fields) ==> fields_are_valid(kind, fields),
{
}

} // verus!

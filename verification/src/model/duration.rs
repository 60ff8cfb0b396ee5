//! The XSD types of durations: `duration`, `yearMonthDuration` and
//! `dayTimeDuration`. A duration is held by its months and its seconds.

use crate::model::date_time::{lemma_fraction_ascii, lemma_padded_ascii};
use crate::model::decimal::{push_fraction, without_trailing_zeros};
use crate::model::lexical::{
    ascii_string, ascii_text, digits_count, digits_end, is_ascii_bytes, lemma_number_of_bound,
    lemma_pow10_add, lemma_pow10_grows, lemma_pow10_values, natural_bytes, number_of, padded,
    pow10, push_byte, push_natural, read_number, scan_digits, ten_to,
};
use vstd::prelude::*;
use vstd::string::StringSliceAdditionalSpecFns;
use vstd::utf8::encode_utf8;

verus! {

/// Which of the three types a duration is of.
#[derive(Clone, Copy, Debug, PartialEq, Eq, Structural, Hash)]
pub enum DurationKind {
    Duration,
    YearMonthDuration,
    DayTimeDuration,
}

/// A duration: a number of months and a number of seconds, the seconds in
/// quintillionths. Both have the sign of the duration.
#[derive(Clone, Copy, Debug, PartialEq, Eq, Structural, Hash)]
pub struct Duration {
    pub months: i64,
    pub seconds: i128,
}

/// A part of a duration at a place: a number and the letter that says what
/// it counts. Where the digits at the place are followed by another letter,
/// the part is not there.
pub struct Component {
    pub value: nat,
    pub next: int,
    pub present: bool,
}

/// The part of a duration with a letter at a place, if it is there.
pub open spec fn component_at(bytes: Seq<u8>, at: int, letter: u8) -> Component {
    let end = digits_end(bytes, at);
    if 0 <= at && at < end && end < bytes.len() && bytes[end] == letter {
        Component { value: number_of(bytes, at, end), next: end + 1, present: true }
    } else {
        Component { value: 0, next: at, present: false }
    }
}

/// The seconds of a duration at a place, in quintillionths, if they are
/// there: digits, and behind an optional point up to 18 digits more, one at
/// least, then `S`. None where the fraction is not in order.
pub open spec fn seconds_component_at(bytes: Seq<u8>, at: int) -> Option<Component> {
    let end = digits_end(bytes, at);
    if 0 <= at && at < end && end < bytes.len() && bytes[end] == 0x53 {
        Some(
            Component { value: number_of(bytes, at, end) * pow10(18), next: end + 1, present: true },
        )
    } else if 0 <= at && at < end && end < bytes.len() && bytes[end] == 0x2e {
        let last = digits_end(bytes, end + 1);
        if last < bytes.len() && bytes[last] == 0x53 {
            if last - (end + 1) < 1 || last - (end + 1) > 18 {
                None
            } else {
                Some(
                    Component {
                        value: number_of(bytes, at, end) * pow10(18) + number_of(
                            bytes,
                            end + 1,
                            last,
                        ) * pow10((18 - (last - (end + 1))) as nat),
                        next: last + 1,
                        present: true,
                    },
                )
            }
        } else {
            Some(Component { value: 0, next: at, present: false })
        }
    } else {
        Some(Component { value: 0, next: at, present: false })
    }
}

/// The parts of a duration as they stand in a text: the years, the months
/// and the days, and behind a `T` the hours, the minutes and the seconds.
pub struct DurationParts {
    pub negative: bool,
    pub starts: bool,
    pub years: Component,
    pub months: Component,
    pub days: Component,
    pub has_time: bool,
    pub hours: Component,
    pub minutes: Component,
    pub seconds: Option<Component>,
}

/// Cuts a text into the parts of a duration.
pub open spec fn duration_parts(bytes: Seq<u8>) -> DurationParts {
    let negative = bytes.len() > 0 && bytes[0] == 0x2d;
    let start = if negative {
        1int
    } else {
        0int
    };
    let starts = start < bytes.len() && bytes[start] == 0x50;
    let years = component_at(bytes, start + 1, 0x59);
    let months = component_at(bytes, years.next, 0x4d);
    let days = component_at(bytes, months.next, 0x44);
    let has_time = days.next < bytes.len() && bytes[days.next] == 0x54;
    let time_start = if has_time {
        days.next + 1
    } else {
        days.next
    };
    let absent = Component { value: 0, next: time_start, present: false };
    let hours = if has_time {
        component_at(bytes, time_start, 0x48)
    } else {
        absent
    };
    let minutes = if has_time {
        component_at(bytes, hours.next, 0x4d)
    } else {
        absent
    };
    let seconds = if has_time {
        seconds_component_at(bytes, minutes.next)
    } else {
        Some(absent)
    };
    DurationParts { negative, starts, years, months, days, has_time, hours, minutes, seconds }
}

/// The number of seconds of the parts of a duration, in quintillionths.
pub open spec fn seconds_of_parts(days: nat, hours: nat, minutes: nat, seconds: nat) -> nat {
    (days * 86400 + hours * 3600 + minutes * 60) * pow10(18) + seconds
}

/// The duration of some type that a text denotes, if it denotes one: a
/// minus sign or none, `P`, and one part at least, one of the time at least
/// behind a `T`, of the parts that the type has, with values that fit.
pub open spec fn duration_of(kind: DurationKind, bytes: Seq<u8>) -> Option<Duration> {
    let parts = duration_parts(bytes);
    match parts.seconds {
        None => None,
        Some(seconds) => {
            let months_total = parts.years.value * 12 + parts.months.value;
            let seconds_total = seconds_of_parts(
                parts.days.value,
                parts.hours.value,
                parts.minutes.value,
                seconds.value,
            );
            let date_given = parts.years.present || parts.months.present || parts.days.present;
            let time_given = parts.hours.present || parts.minutes.present || seconds.present;
            if !parts.starts || seconds.next != bytes.len() {
                None
            } else if !date_given && !time_given {
                None
            } else if parts.has_time && !time_given {
                None
            } else if kind == DurationKind::YearMonthDuration && (parts.days.present
                || parts.has_time) {
                None
            } else if kind == DurationKind::DayTimeDuration && (parts.years.present
                || parts.months.present) {
                None
            } else {
                duration_from(parts.negative, months_total, seconds_total)
            }
        },
    }
}

/// The duration of a sign, a number of months and a number of seconds, if
/// they fit.
pub open spec fn duration_from(negative: bool, months_total: nat, seconds_total: nat) -> Option<
    Duration,
> {
    let months = if negative {
        -(months_total as int)
    } else {
        months_total as int
    };
    let secs = if negative {
        -(seconds_total as int)
    } else {
        seconds_total as int
    };
    if i64::MIN <= months <= i64::MAX && i128::MIN <= secs <= i128::MAX {
        Some(Duration { months: months as i64, seconds: secs as i128 })
    } else {
        None
    }
}

/// The greatest value of a part that is read: a greater one makes a
/// duration that does not fit.
pub const PART_LIMIT: u128 = 0x10_0000_0000_0000_0000;

/// A part as it is read: its value, or none where the value is above the
/// limit.
struct ReadComponent {
    value: Option<u128>,
    next: usize,
    present: bool,
}

fn component(bytes: &[u8], at: usize, letter: u8) -> (r: ReadComponent)
    requires
        at <= bytes@.len(),
    ensures
        r.next == component_at(bytes@, at as int, letter).next,
        r.present == component_at(bytes@, at as int, letter).present,
        r.next <= bytes@.len(),
        match r.value {
            Some(value) => value == component_at(bytes@, at as int, letter).value && value
                <= PART_LIMIT,
            None => component_at(bytes@, at as int, letter).value > PART_LIMIT,
        },
{
    let end = scan_digits(bytes, at);
    if at < end && end < bytes.len() && bytes[end] == letter {
        ReadComponent { value: read_number(bytes, at, end, PART_LIMIT), next: end + 1, present: true }
    } else {
        ReadComponent { value: Some(0), next: at, present: false }
    }
}

/// The seconds as they are read: the whole seconds, or none where they are
/// above the limit, and the fraction in quintillionths.
struct ReadSeconds {
    whole: Option<u128>,
    fraction: u128,
    next: usize,
    present: bool,
}

fn seconds_component(bytes: &[u8], at: usize) -> (r: Option<ReadSeconds>)
    requires
        at <= bytes@.len(),
    ensures
        match r {
            None => seconds_component_at(bytes@, at as int) is None,
            Some(read) => seconds_component_at(bytes@, at as int) matches Some(found)
                && read.next == found.next && read.present == found.present && read.next
                <= bytes@.len() && read.fraction < pow10(18) && match read.whole {
                Some(whole) => whole <= PART_LIMIT && found.value == whole * pow10(18)
                    + read.fraction,
                None => found.value > PART_LIMIT * pow10(18),
            },
        },
{
    proof {
        lemma_pow10_values();
    }
    let end = scan_digits(bytes, at);
    if at < end && end < bytes.len() && bytes[end] == 0x53 {
        let whole = read_number(bytes, at, end, PART_LIMIT);
        proof {
            let n = number_of(bytes@, at as int, end as int);
            if whole is None {
                assert(n * pow10(18) > PART_LIMIT * pow10(18)) by (nonlinear_arith)
                    requires
                        n > PART_LIMIT,
                        pow10(18) > 0,
                ;
            }
        }
        Some(ReadSeconds { whole, fraction: 0, next: end + 1, present: true })
    } else if at < end && end < bytes.len() && bytes[end] == 0x2e {
        let last = scan_digits(bytes, end + 1);
        if last < bytes.len() && bytes[last] == 0x53 {
            let count = last - (end + 1);
            if count < 1 || count > 18 {
                return None;
            }
            let ghost part = number_of(bytes@, end as int + 1, last as int);
            let ghost scale_spec = pow10((18 - count) as nat);
            proof {
                lemma_number_of_bound(bytes@, end as int + 1, last as int);
                lemma_pow10_grows(count as nat, 18);
                lemma_pow10_grows(0, (18 - count) as nat);
                lemma_pow10_add(count as nat, (18 - count) as nat);
                assert(part * scale_spec < pow10(18)) by (nonlinear_arith)
                    requires
                        part < pow10(count as nat),
                        pow10(count as nat) * scale_spec == pow10(18),
                        scale_spec >= 1,
                ;
            }
            let digits = match read_number(bytes, end + 1, last, 1_000_000_000_000_000_000) {
                Some(value) => value,
                None => { return None; },
            };
            let scale = ten_to(18 - count);
            let whole = read_number(bytes, at, end, PART_LIMIT);
            proof {
                let n = number_of(bytes@, at as int, end as int);
                if whole is None {
                    assert(n * pow10(18) > PART_LIMIT * pow10(18)) by (nonlinear_arith)
                        requires
                            n > PART_LIMIT,
                            pow10(18) > 0,
                    ;
                }
            }
            Some(ReadSeconds { whole, fraction: digits * scale, next: last + 1, present: true })
        } else {
            Some(ReadSeconds { whole: Some(0), fraction: 0, next: at, present: false })
        }
    } else {
        Some(ReadSeconds { whole: Some(0), fraction: 0, next: at, present: false })
    }
}

/// Reads a duration of one of the three types.
#[verifier::rlimit(40)]
pub fn parse_duration(kind: DurationKind, text: &str) -> (r: Option<Duration>)
    ensures
        r == duration_of(kind, encode_utf8(text@)),
{
    let bytes = text.as_bytes();
    let n = bytes.len();
    proof {
        lemma_pow10_values();
    }
    let negative = n > 0 && bytes[0] == 0x2d;
    let start: usize = if negative {
        1
    } else {
        0
    };
    if !(start < n && bytes[start] == 0x50) {
        return None;
    }
    let years = component(bytes, start + 1, 0x59);
    let months = component(bytes, years.next, 0x4d);
    let days = component(bytes, months.next, 0x44);
    let has_time = days.next < n && bytes[days.next] == 0x54;
    let time_start: usize = if has_time {
        days.next + 1
    } else {
        days.next
    };
    let hours = if has_time {
        component(bytes, time_start, 0x48)
    } else {
        ReadComponent { value: Some(0), next: time_start, present: false }
    };
    let minutes = if has_time {
        component(bytes, hours.next, 0x4d)
    } else {
        ReadComponent { value: Some(0), next: time_start, present: false }
    };
    let seconds = if has_time {
        match seconds_component(bytes, minutes.next) {
            Some(read) => read,
            None => { return None; },
        }
    } else {
        ReadSeconds { whole: Some(0), fraction: 0, next: time_start, present: false }
    };
    if seconds.next != n {
        return None;
    }
    let date_given = years.present || months.present || days.present;
    let time_given = hours.present || minutes.present || seconds.present;
    if !date_given && !time_given {
        return None;
    }
    if has_time && !time_given {
        return None;
    }
    if matches!(kind, DurationKind::YearMonthDuration) && (days.present || has_time) {
        return None;
    }
    if matches!(kind, DurationKind::DayTimeDuration) && (years.present || months.present) {
        return None;
    }
    make_duration(
        negative,
        years.value,
        months.value,
        days.value,
        hours.value,
        minutes.value,
        seconds.whole,
        seconds.fraction,
    )
}

/// The value of a part as it was read, or some value above the limit.
spec fn read_value(value: Option<u128>, actual: nat) -> bool {
    match value {
        Some(value) => value == actual && value <= PART_LIMIT,
        None => actual > PART_LIMIT,
    }
}

fn make_duration(
    negative: bool,
    years: Option<u128>,
    months: Option<u128>,
    days: Option<u128>,
    hours: Option<u128>,
    minutes: Option<u128>,
    seconds: Option<u128>,
    fraction: u128,
) -> (r: Option<Duration>)
    requires
        fraction < pow10(18),
        years matches Some(value) ==> value <= PART_LIMIT,
        months matches Some(value) ==> value <= PART_LIMIT,
        days matches Some(value) ==> value <= PART_LIMIT,
        hours matches Some(value) ==> value <= PART_LIMIT,
        minutes matches Some(value) ==> value <= PART_LIMIT,
        seconds matches Some(value) ==> value <= PART_LIMIT,
    ensures
        forall|y: nat, mo: nat, d: nat, h: nat, mi: nat, s: nat|
            read_value(years, y) && read_value(months, mo) && read_value(days, d) && read_value(
                hours,
                h,
            ) && read_value(minutes, mi) && (match seconds {
                Some(whole) => whole <= PART_LIMIT && s == whole * pow10(18) + fraction,
                None => s > PART_LIMIT * pow10(18),
            }) ==> r == #[trigger] duration_from(
                negative,
                y * 12 + mo,
                seconds_of_parts(d, h, mi, s),
            ),
{
    proof {
        lemma_pow10_values();
    }
    let (y, mo, d, h, mi, s) = match (years, months, days, hours, minutes, seconds) {
        (Some(y), Some(mo), Some(d), Some(h), Some(mi), Some(s)) => (y, mo, d, h, mi, s),
        _ => {
            proof {
                assert forall|y: nat, mo: nat, d: nat, h: nat, mi: nat, s: nat|
                    read_value(years, y) && read_value(months, mo) && read_value(days, d)
                        && read_value(hours, h) && read_value(minutes, mi) && (match seconds {
                        Some(whole) => whole <= PART_LIMIT && s == whole * pow10(18) + fraction,
                        None => s > PART_LIMIT * pow10(18),
                    }) implies #[trigger] duration_from(
                    negative,
                    y * 12 + mo,
                    seconds_of_parts(d, h, mi, s),
                ) is None by {
                    lemma_too_large(y, mo, d, h, mi, s);
                }
            }
            return None;
        },
    };
    let months_sum: u128 = y * 12 + mo;
    let whole_seconds: u128 = d * 86400 + h * 3600 + mi * 60 + s;
    let ghost total = seconds_of_parts(
        d as nat,
        h as nat,
        mi as nat,
        (s * pow10(18) + fraction) as nat,
    );
    proof {
        assert(total == whole_seconds * pow10(18) + fraction) by (nonlinear_arith)
            requires
                total == (d * 86400 + h * 3600 + mi * 60) * pow10(18) + (s * pow10(18)
                    + fraction),
                whole_seconds == d * 86400 + h * 3600 + mi * 60 + s,
        ;
    }
    if whole_seconds > 170_141_183_460_469_231_732 {
        proof {
            assert(total > i128::MAX + 1) by (nonlinear_arith)
                requires
                    total == whole_seconds * pow10(18) + fraction,
                    whole_seconds > 170_141_183_460_469_231_732,
                    pow10(18) == 1_000_000_000_000_000_000,
            ;
        }
        return None;
    }
    proof {
        assert(whole_seconds * 1_000_000_000_000_000_000 <= 170_141_183_460_469_231_732
            * 1_000_000_000_000_000_000) by (nonlinear_arith)
            requires
                whole_seconds <= 170_141_183_460_469_231_732,
        ;
    }
    let seconds_sum: u128 = whole_seconds * 1_000_000_000_000_000_000 + fraction;
    let months_value: i64 = if negative {
        if months_sum > 9_223_372_036_854_775_808 {
            return None;
        } else if months_sum == 9_223_372_036_854_775_808 {
            i64::MIN
        } else {
            -(months_sum as i64)
        }
    } else {
        if months_sum > 9_223_372_036_854_775_807 {
            return None;
        } else {
            months_sum as i64
        }
    };
    let seconds_value: i128 = if negative {
        if seconds_sum > 170_141_183_460_469_231_731_687_303_715_884_105_728 {
            return None;
        } else if seconds_sum == 170_141_183_460_469_231_731_687_303_715_884_105_728 {
            i128::MIN
        } else {
            -(seconds_sum as i128)
        }
    } else {
        if seconds_sum > 170_141_183_460_469_231_731_687_303_715_884_105_727 {
            return None;
        } else {
            seconds_sum as i128
        }
    };
    Some(Duration { months: months_value, seconds: seconds_value })
}

/// A duration with a part above the limit does not fit.
proof fn lemma_too_large(y: nat, mo: nat, d: nat, h: nat, mi: nat, s: nat)
    requires
        y > PART_LIMIT || mo > PART_LIMIT || d > PART_LIMIT || h > PART_LIMIT || mi > PART_LIMIT
            || s > PART_LIMIT * pow10(18),
    ensures
        y * 12 + mo > i64::MAX + 1 || seconds_of_parts(d, h, mi, s) > i128::MAX + 1,
{
    lemma_pow10_values();
    let p = pow10(18);
    if y > PART_LIMIT || mo > PART_LIMIT {
        assert(y * 12 + mo > i64::MAX + 1) by (nonlinear_arith)
            requires
                y > PART_LIMIT || mo > PART_LIMIT,
                PART_LIMIT == 0x10_0000_0000_0000_0000,
        ;
    } else {
        assert((d * 86400 + h * 3600 + mi * 60) * p + s > i128::MAX + 1) by (nonlinear_arith)
            requires
                d > PART_LIMIT || h > PART_LIMIT || mi > PART_LIMIT || s > PART_LIMIT * p,
                p == 1_000_000_000_000_000_000,
                PART_LIMIT == 0x10_0000_0000_0000_0000,
        ;
    }
}

/// A part of a duration as it is written: the number and its letter, or
/// nothing for zero.
pub open spec fn part_bytes(value: nat, letter: u8) -> Seq<u8> {
    if value == 0 {
        Seq::empty()
    } else {
        natural_bytes(value) + seq![letter]
    }
}

/// The seconds of a duration as they are written: the whole seconds, the
/// fraction behind a point where there is one, and `S`, or nothing for
/// zero.
pub open spec fn seconds_part_bytes(whole: nat, fraction: nat) -> Seq<u8> {
    if whole == 0 && fraction == 0 {
        Seq::empty()
    } else if fraction == 0 {
        natural_bytes(whole) + seq![0x53u8]
    } else {
        natural_bytes(whole) + seq![0x2eu8] + without_trailing_zeros(padded(fraction, 18))
            + seq![0x53u8]
    }
}

/// The magnitude of a number of months.
pub open spec fn months_magnitude(d: Duration) -> nat {
    if d.months < 0 {
        (-(d.months as int)) as nat
    } else {
        d.months as nat
    }
}

/// The magnitude of a number of seconds.
pub open spec fn seconds_magnitude(d: Duration) -> nat {
    if d.seconds < 0 {
        (-(d.seconds as int)) as nat
    } else {
        d.seconds as nat
    }
}

/// The canonical lexical form of a duration of some type: a minus sign where
/// it is negative, `P`, the years, the months taken by twelve, the days, and
/// behind a `T` the hours, the minutes and the seconds, each where it is not
/// zero. A duration of nothing is `PT0S`, or `P0M` of months.
pub open spec fn duration_bytes(kind: DurationKind, d: Duration) -> Seq<u8> {
    let months = months_magnitude(d);
    let seconds = seconds_magnitude(d);
    let whole = seconds / pow10(18);
    let fraction = seconds % pow10(18);
    let sign = if d.months < 0 || d.seconds < 0 {
        seq![0x2du8, 0x50u8]
    } else {
        seq![0x50u8]
    };
    let date = duration_date_bytes(months, whole);
    let time = duration_time_bytes(whole, fraction);
    if months == 0 && seconds == 0 {
        if kind == DurationKind::YearMonthDuration {
            sign + seq![0x30u8, 0x4du8]
        } else {
            sign + seq![0x54u8, 0x30u8, 0x53u8]
        }
    } else if whole % 86400 == 0 && fraction == 0 {
        sign + date
    } else {
        sign + date + seq![0x54u8] + time
    }
}

fn push_part(out: &mut Vec<u8>, value: u128, letter: u8)
    ensures
        final(out)@ == old(out)@ + part_bytes(value as nat, letter),
{
    if value != 0 {
        push_natural(out, value);
        push_byte(out, letter);
    }
    proof {
        assert(out@ =~= old(out)@ + part_bytes(value as nat, letter));
    }
}

fn push_seconds_part(out: &mut Vec<u8>, whole: u128, fraction: u128)
    ensures
        final(out)@ == old(out)@ + seconds_part_bytes(whole as nat, fraction as nat),
{
    if whole != 0 || fraction != 0 {
        push_natural(out, whole);
        if fraction != 0 {
            push_byte(out, 0x2e);
            push_fraction(out, fraction);
        }
        push_byte(out, 0x53);
    }
    proof {
        assert(out@ =~= old(out)@ + seconds_part_bytes(whole as nat, fraction as nat));
    }
}

/// The date of a duration as it is written.
pub open spec fn duration_date_bytes(months: nat, whole: nat) -> Seq<u8> {
    part_bytes(months / 12, 0x59) + part_bytes(months % 12, 0x4d) + part_bytes(
        whole / 86400,
        0x44,
    )
}

/// The time of a duration as it is written.
pub open spec fn duration_time_bytes(whole: nat, fraction: nat) -> Seq<u8> {
    part_bytes((whole % 86400) / 3600, 0x48) + part_bytes((whole % 3600) / 60, 0x4d)
        + seconds_part_bytes(whole % 60, fraction)
}

fn push_duration_date(out: &mut Vec<u8>, months: u128, whole: u128)
    ensures
        final(out)@ == old(out)@ + duration_date_bytes(months as nat, whole as nat),
{
    push_part(out, months / 12, 0x59);
    push_part(out, months % 12, 0x4d);
    push_part(out, whole / 86400, 0x44);
    proof {
        assert(out@ =~= old(out)@ + duration_date_bytes(months as nat, whole as nat));
    }
}

fn push_duration_time(out: &mut Vec<u8>, whole: u128, fraction: u128)
    ensures
        final(out)@ == old(out)@ + duration_time_bytes(whole as nat, fraction as nat),
{
    push_part(out, (whole % 86400) / 3600, 0x48);
    push_part(out, (whole % 3600) / 60, 0x4d);
    push_seconds_part(out, whole % 60, fraction);
    proof {
        assert(out@ =~= old(out)@ + duration_time_bytes(whole as nat, fraction as nat));
    }
}

/// Writes a duration of one of the three types into `out`.
pub fn push_duration(out: &mut Vec<u8>, kind: DurationKind, d: &Duration)
    ensures
        final(out)@ == old(out)@ + duration_bytes(kind, *d),
{
    let ghost start = out@;
    proof {
        lemma_pow10_values();
    }
    let months: u128 = if d.months < 0 {
        ((-(d.months + 1)) as u128) + 1
    } else {
        d.months as u128
    };
    let seconds: u128 = if d.seconds < 0 {
        ((-(d.seconds + 1)) as u128) + 1
    } else {
        d.seconds as u128
    };
    let whole: u128 = seconds / 1_000_000_000_000_000_000;
    let fraction: u128 = seconds % 1_000_000_000_000_000_000;
    if d.months < 0 || d.seconds < 0 {
        push_byte(out, 0x2d);
    }
    push_byte(out, 0x50);
    let ghost sign = if d.months < 0 || d.seconds < 0 {
        seq![0x2du8, 0x50u8]
    } else {
        seq![0x50u8]
    };
    proof {
        assert(out@ =~= start + sign);
    }
    if months == 0 && seconds == 0 {
        if matches!(kind, DurationKind::YearMonthDuration) {
            push_byte(out, 0x30);
            push_byte(out, 0x4d);
            proof {
                assert(out@ =~= start + (sign + seq![0x30u8, 0x4du8]));
            }
        } else {
            push_byte(out, 0x54);
            push_byte(out, 0x30);
            push_byte(out, 0x53);
            proof {
                assert(out@ =~= start + (sign + seq![0x54u8, 0x30u8, 0x53u8]));
            }
        }
        return ;
    }
    push_duration_date(out, months, whole);
    let ghost date = duration_date_bytes(months as nat, whole as nat);
    if whole % 86400 != 0 || fraction != 0 {
        push_byte(out, 0x54);
        push_duration_time(out, whole, fraction);
        let ghost time = duration_time_bytes(whole as nat, fraction as nat);
        proof {
            assert(out@ =~= start + (sign + date + seq![0x54u8] + time));
        }
    } else {
        proof {
            assert(out@ =~= start + (sign + date));
        }
    }
}

proof fn lemma_natural_ascii(n: nat)
    ensures
        is_ascii_bytes(natural_bytes(n)),
{
    lemma_padded_ascii(n, digits_count(n));
}

proof fn lemma_ascii_concat(a: Seq<u8>, b: Seq<u8>)
    requires
        is_ascii_bytes(a),
        is_ascii_bytes(b),
    ensures
        is_ascii_bytes(a + b),
{
    assert forall|i: int| 0 <= i < (a + b).len() implies #[trigger] (a + b)[i] < 128 by {
        if i < a.len() {
            assert((a + b)[i] == a[i]);
        } else {
            assert((a + b)[i] == b[i - a.len()]);
        }
    }
}

proof fn lemma_part_ascii(value: nat, letter: u8)
    requires
        letter < 128,
    ensures
        is_ascii_bytes(part_bytes(value, letter)),
{
    lemma_natural_ascii(value);
    lemma_ascii_concat(natural_bytes(value), seq![letter]);
}

proof fn lemma_seconds_part_ascii(whole: nat, fraction: nat)
    ensures
        is_ascii_bytes(seconds_part_bytes(whole, fraction)),
{
    lemma_natural_ascii(whole);
    lemma_fraction_ascii(fraction);
    let w = natural_bytes(whole);
    let f = without_trailing_zeros(padded(fraction, 18));
    lemma_ascii_concat(w, seq![0x53u8]);
    lemma_ascii_concat(w, seq![0x2eu8]);
    lemma_ascii_concat(w + seq![0x2eu8], f);
    lemma_ascii_concat(w + seq![0x2eu8] + f, seq![0x53u8]);
}

proof fn lemma_duration_date_ascii(months: nat, whole: nat)
    ensures
        is_ascii_bytes(duration_date_bytes(months, whole)),
{
    lemma_part_ascii(months / 12, 0x59);
    lemma_part_ascii(months % 12, 0x4d);
    lemma_part_ascii(whole / 86400, 0x44);
    lemma_ascii_concat(part_bytes(months / 12, 0x59), part_bytes(months % 12, 0x4d));
    lemma_ascii_concat(
        part_bytes(months / 12, 0x59) + part_bytes(months % 12, 0x4d),
        part_bytes(whole / 86400, 0x44),
    );
}

proof fn lemma_duration_time_ascii(whole: nat, fraction: nat)
    ensures
        is_ascii_bytes(duration_time_bytes(whole, fraction)),
{
    lemma_part_ascii((whole % 86400) / 3600, 0x48);
    lemma_part_ascii((whole % 3600) / 60, 0x4d);
    lemma_seconds_part_ascii(whole % 60, fraction);
    lemma_ascii_concat(
        part_bytes((whole % 86400) / 3600, 0x48),
        part_bytes((whole % 3600) / 60, 0x4d),
    );
    lemma_ascii_concat(
        part_bytes((whole % 86400) / 3600, 0x48) + part_bytes((whole % 3600) / 60, 0x4d),
        seconds_part_bytes(whole % 60, fraction),
    );
}

/// Every byte of the canonical lexical form of a duration is below 128.
pub proof fn lemma_duration_bytes_ascii(kind: DurationKind, d: Duration)
    ensures
        is_ascii_bytes(duration_bytes(kind, d)),
{
    let months = months_magnitude(d);
    let seconds = seconds_magnitude(d);
    let whole = seconds / pow10(18);
    let fraction = seconds % pow10(18);
    let sign = if d.months < 0 || d.seconds < 0 {
        seq![0x2du8, 0x50u8]
    } else {
        seq![0x50u8]
    };
    let date = duration_date_bytes(months, whole);
    let time = duration_time_bytes(whole, fraction);
    lemma_duration_date_ascii(months, whole);
    lemma_duration_time_ascii(whole, fraction);
    lemma_ascii_concat(sign, seq![0x30u8, 0x4du8]);
    lemma_ascii_concat(sign, seq![0x54u8, 0x30u8, 0x53u8]);
    lemma_ascii_concat(sign, date);
    lemma_ascii_concat(sign + date, seq![0x54u8]);
    lemma_ascii_concat(sign + date + seq![0x54u8], time);
}

/// The canonical lexical form of a duration of some type, as a text.
pub open spec fn duration_text(kind: DurationKind, d: Duration) -> Seq<char> {
    ascii_text(duration_bytes(kind, d))
}

/// Writes a duration of one of the three types.
pub fn format_duration(kind: DurationKind, d: &Duration) -> (r: String)
    ensures
        r@ == duration_text(kind, *d),
        encode_utf8(r@) == duration_bytes(kind, *d),
{
    let mut out: Vec<u8> = Vec::new();
    push_duration(&mut out, kind, d);
    proof {
        lemma_duration_bytes_ascii(kind, *d);
        assert(out@ =~= duration_bytes(kind, *d));
    }
    ascii_string(&out)
}

} // verus!

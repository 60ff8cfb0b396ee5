use oxigraph::model::date_time::{format_date_time, parse_date_time, DateTimeFields, DateTimeKind};
use oxigraph::model::decimal::{format_decimal, parse_decimal, Decimal};
use oxigraph::model::duration::{format_duration, parse_duration, Duration, DurationKind};
use oxigraph::model::literal::Literal;
use oxigraph::model::named_node::NamedNode;
use oxigraph::model::triple::Term;
use oxigraph::model::xsd::{format_boolean, parse_boolean};
use oxigraph::storage::numeric_encoder::{
    decode_term, insert_term_values, parse_date_str, parse_date_time_str,
    parse_day_time_duration_str, parse_decimal_str, parse_duration_str, parse_g_day_str,
    parse_g_month_day_str, parse_g_month_str, parse_g_year_month_str, parse_g_year_str,
    parse_time_str, parse_year_month_duration_str, EncodedTerm,
};
use oxigraph::storage::string_store::StringStore;

const ONE: i128 = 1_000_000_000_000_000_000;

fn typed(value: &str, name: &str) -> Term {
    Term::Literal(Literal::new_typed_literal(
        value.to_owned(),
        NamedNode::new_unchecked(format!("http://www.w3.org/2001/XMLSchema#{}", name)),
    ))
}

fn round_trip(term: &Term) -> Term {
    let encoded = EncodedTerm::from_term(term);
    let mut store = StringStore::new();
    insert_term_values(term, &encoded, &mut store);
    decode_term(&store, &encoded).unwrap()
}

#[test]
fn booleans_are_written_as_true_and_false() {
    assert_eq!(format_boolean(true), "true");
    assert_eq!(format_boolean(false), "false");
    assert_eq!(parse_boolean("1"), Some(true));
    assert_eq!(parse_boolean("0"), Some(false));
    assert_eq!(parse_boolean("True"), None);
}

#[test]
fn decimals_are_read() {
    let value = |text: &str| parse_decimal(text).map(|d| d.value);
    assert_eq!(value("1.5"), Some(ONE + ONE / 2));
    assert_eq!(value("-0.1"), Some(-ONE / 10));
    assert_eq!(value("+3"), Some(3 * ONE));
    assert_eq!(value("1."), Some(ONE));
    assert_eq!(value(".5"), Some(ONE / 2));
    assert_eq!(value("007.250"), Some(7 * ONE + ONE / 4));
    assert_eq!(value("0"), Some(0));
    assert_eq!(value("-0"), Some(0));
    assert_eq!(value("0.000000000000000001"), Some(1));
    assert_eq!(value("0.000000000000000001000"), Some(1));
    assert_eq!(value("0.0000000000000000001"), None);
    assert_eq!(
        value("170141183460469231731.687303715884105727"),
        Some(i128::MAX)
    );
    assert_eq!(value("170141183460469231731.687303715884105728"), None);
    assert_eq!(
        value("-170141183460469231731.687303715884105728"),
        Some(i128::MIN)
    );
    assert_eq!(value("-170141183460469231731.687303715884105729"), None);
    assert_eq!(value("999999999999999999999999999999999999999999"), None);
    for text in ["", ".", "+", "-", "+.", "1e3", "1.5.2", " 1", "1 ", "1,5", "--1", "0x1"] {
        assert_eq!(value(text), None, "{:?}", text);
    }
}

#[test]
fn decimals_are_written_canonically() {
    let text = |value: i128| format_decimal(&Decimal { value });
    assert_eq!(text(0), "0");
    assert_eq!(text(ONE), "1");
    assert_eq!(text(-ONE), "-1");
    assert_eq!(text(ONE + ONE / 2), "1.5");
    assert_eq!(text(-ONE / 10), "-0.1");
    assert_eq!(text(1), "0.000000000000000001");
    assert_eq!(text(123 * ONE + 45 * ONE / 1000), "123.045");
    assert_eq!(text(i128::MAX), "170141183460469231731.687303715884105727");
    assert_eq!(text(i128::MIN), "-170141183460469231731.687303715884105728");
    for value in [0, 1, -1, ONE, 42 * ONE + 7, i128::MAX, i128::MIN, -ONE / 3] {
        assert_eq!(parse_decimal(&text(value)), Some(Decimal { value }));
    }
}

fn fields(
    year: i64,
    month: u8,
    day: u8,
    hour: u8,
    minute: u8,
    second: u128,
    timezone_offset: Option<i16>,
) -> DateTimeFields {
    DateTimeFields { year, month, day, hour, minute, second, timezone_offset }
}

#[test]
fn dates_and_times_are_read() {
    let second = ONE as u128;
    assert_eq!(
        parse_date_time(DateTimeKind::DateTime, "2020-01-02T10:20:30.5+02:00"),
        Some(fields(2020, 1, 2, 10, 20, 30 * second + second / 2, Some(120)))
    );
    assert_eq!(
        parse_date_time(DateTimeKind::DateTime, "-0044-03-15T00:00:00Z"),
        Some(fields(-44, 3, 15, 0, 0, 0, Some(0)))
    );
    assert_eq!(
        parse_date_time(DateTimeKind::DateTime, "12345-12-31T23:59:59"),
        Some(fields(12345, 12, 31, 23, 59, 59 * second, None))
    );
    assert_eq!(
        parse_date_time(DateTimeKind::Date, "2020-02-29-05:30"),
        Some(fields(2020, 2, 29, 0, 0, 0, Some(-330)))
    );
    assert_eq!(
        parse_date_time(DateTimeKind::Time, "23:59:59.999"),
        Some(fields(0, 0, 0, 23, 59, 59 * second + 999 * second / 1000, None))
    );
    assert_eq!(
        parse_date_time(DateTimeKind::GYearMonth, "2020-12"),
        Some(fields(2020, 12, 0, 0, 0, 0, None))
    );
    assert_eq!(
        parse_date_time(DateTimeKind::GYear, "2020Z"),
        Some(fields(2020, 0, 0, 0, 0, 0, Some(0)))
    );
    assert_eq!(
        parse_date_time(DateTimeKind::GMonthDay, "--02-29"),
        Some(fields(0, 2, 29, 0, 0, 0, None))
    );
    assert_eq!(
        parse_date_time(DateTimeKind::GDay, "---31"),
        Some(fields(0, 0, 31, 0, 0, 0, None))
    );
    assert_eq!(
        parse_date_time(DateTimeKind::GMonth, "--12+14:00"),
        Some(fields(0, 12, 0, 0, 0, 0, Some(840)))
    );
}

#[test]
fn dates_and_times_out_of_order_are_refused() {
    let refused = [
        (DateTimeKind::Date, "2021-02-29"),
        (DateTimeKind::Date, "1900-02-29"),
        (DateTimeKind::Date, "2020-13-01"),
        (DateTimeKind::Date, "2020-00-01"),
        (DateTimeKind::Date, "2020-04-31"),
        (DateTimeKind::Date, "2020-01-00"),
        (DateTimeKind::Date, "2020-1-01"),
        (DateTimeKind::Date, "020-01-01"),
        (DateTimeKind::Date, "02020-01-01"),
        (DateTimeKind::Date, "2020-01-01T00:00:00"),
        (DateTimeKind::Date, "2020-01-01+14:01"),
        (DateTimeKind::Date, "2020-01-01+15:00"),
        (DateTimeKind::Date, "2020-01-01z"),
        (DateTimeKind::Date, "2020-01-01Z "),
        (DateTimeKind::DateTime, "2020-01-01"),
        (DateTimeKind::DateTime, "2020-01-01 00:00:00"),
        (DateTimeKind::DateTime, "2020-01-01T24:00:00"),
        (DateTimeKind::DateTime, "2020-01-01T00:60:00"),
        (DateTimeKind::DateTime, "2020-01-01T00:00:60"),
        (DateTimeKind::DateTime, "2020-01-01T00:00:00."),
        (DateTimeKind::DateTime, "2020-01-01T00:00:0"),
        (DateTimeKind::DateTime, "99999999999999999999-01-01T00:00:00"),
        (DateTimeKind::Time, "1:00:00"),
        (DateTimeKind::Time, "T01:00:00"),
        (DateTimeKind::GYear, "20"),
        (DateTimeKind::GYearMonth, "2020"),
        (DateTimeKind::GMonthDay, "--02-30"),
        (DateTimeKind::GMonthDay, "-02-29"),
        (DateTimeKind::GDay, "---32"),
        (DateTimeKind::GDay, "--31"),
        (DateTimeKind::GMonth, "--13"),
        (DateTimeKind::GMonth, "---12"),
        (DateTimeKind::GMonth, ""),
    ];
    for (kind, text) in refused {
        assert_eq!(parse_date_time(kind, text), None, "{:?} {:?}", kind, text);
    }
    assert!(parse_date_time(DateTimeKind::Date, "2000-02-29").is_some());
    assert!(parse_date_time(DateTimeKind::Date, "2020-01-01+14:00").is_some());
    assert!(parse_date_time(DateTimeKind::Date, "-9223372036854775808-01-01").is_some());
    assert!(parse_date_time(DateTimeKind::Date, "-9223372036854775809-01-01").is_none());
}

#[test]
fn dates_and_times_are_written_canonically() {
    let cases = [
        (DateTimeKind::DateTime, "2020-01-02T10:20:30.5+02:00", "2020-01-02T10:20:30.5+02:00"),
        (DateTimeKind::DateTime, "2020-01-02T10:20:30.500Z", "2020-01-02T10:20:30.5Z"),
        (DateTimeKind::DateTime, "2020-01-02T10:20:30-00:00", "2020-01-02T10:20:30Z"),
        (DateTimeKind::DateTime, "-0044-03-15T00:00:00", "-0044-03-15T00:00:00"),
        (DateTimeKind::DateTime, "0001-01-01T00:00:00.000000000000000001", "0001-01-01T00:00:00.000000000000000001"),
        (DateTimeKind::Date, "12345-06-07-05:30", "12345-06-07-05:30"),
        (DateTimeKind::Time, "01:02:03", "01:02:03"),
        (DateTimeKind::GYearMonth, "2020-12", "2020-12"),
        (DateTimeKind::GYear, "-0001Z", "-0001Z"),
        (DateTimeKind::GMonthDay, "--02-29", "--02-29"),
        (DateTimeKind::GDay, "---07+00:00", "---07Z"),
        (DateTimeKind::GMonth, "--03", "--03"),
    ];
    for (kind, text, canonical) in cases {
        let value = parse_date_time(kind, text).unwrap();
        assert_eq!(format_date_time(kind, &value), canonical);
        assert_eq!(parse_date_time(kind, canonical), Some(value));
    }
}

#[test]
fn durations_are_read() {
    let second = ONE;
    assert_eq!(
        parse_duration(DurationKind::Duration, "P1Y2M3DT4H5M6.7S"),
        Some(Duration { months: 14, seconds: 273_906 * second + 7 * second / 10 })
    );
    assert_eq!(
        parse_duration(DurationKind::Duration, "-P1M"),
        Some(Duration { months: -1, seconds: 0 })
    );
    assert_eq!(
        parse_duration(DurationKind::Duration, "PT36H"),
        Some(Duration { months: 0, seconds: 129_600 * second })
    );
    assert_eq!(
        parse_duration(DurationKind::Duration, "-PT0.5S"),
        Some(Duration { months: 0, seconds: -second / 2 })
    );
    assert_eq!(
        parse_duration(DurationKind::Duration, "P0Y"),
        Some(Duration { months: 0, seconds: 0 })
    );
    assert_eq!(
        parse_duration(DurationKind::YearMonthDuration, "P1Y2M"),
        Some(Duration { months: 14, seconds: 0 })
    );
    assert_eq!(
        parse_duration(DurationKind::DayTimeDuration, "P1DT2H"),
        Some(Duration { months: 0, seconds: 93_600 * second })
    );
    for text in ["", "P", "-P", "PT", "P1YT", "P1S", "PT1.S", "PT.5S", "P1Y2", "1Y", "P1M1Y", "P-1Y", "+P1Y", "PT1H1H", "P1.5Y", "P 1Y", "PT0.0000000000000000001S"] {
        assert_eq!(parse_duration(DurationKind::Duration, text), None, "{:?}", text);
    }
    assert_eq!(parse_duration(DurationKind::YearMonthDuration, "P1D"), None);
    assert_eq!(parse_duration(DurationKind::YearMonthDuration, "P1YT1H"), None);
    assert_eq!(parse_duration(DurationKind::DayTimeDuration, "P1M"), None);
    assert_eq!(parse_duration(DurationKind::DayTimeDuration, "P1Y"), None);
    // 768614336404564650 years are 9223372036854775800 months
    assert_eq!(
        parse_duration(DurationKind::Duration, "P768614336404564650Y7M"),
        Some(Duration { months: i64::MAX, seconds: 0 })
    );
    assert_eq!(parse_duration(DurationKind::Duration, "P768614336404564650Y8M"), None);
    assert_eq!(
        parse_duration(DurationKind::Duration, "-P768614336404564650Y8M"),
        Some(Duration { months: i64::MIN, seconds: 0 })
    );
    assert_eq!(parse_duration(DurationKind::Duration, "-P768614336404564650Y9M"), None);
    assert_eq!(parse_duration(DurationKind::Duration, "P99999999999999999999999999Y"), None);
    assert_eq!(parse_duration(DurationKind::Duration, "PT99999999999999999999999999S"), None);
}

#[test]
fn durations_are_written_canonically() {
    let cases = [
        (DurationKind::Duration, "P1Y2M3DT4H5M6.7S", "P1Y2M3DT4H5M6.7S"),
        (DurationKind::Duration, "PT36H", "P1DT12H"),
        (DurationKind::Duration, "P14M", "P1Y2M"),
        (DurationKind::Duration, "PT90M", "PT1H30M"),
        (DurationKind::Duration, "PT61.50S", "PT1M1.5S"),
        (DurationKind::Duration, "-P1M", "-P1M"),
        (DurationKind::Duration, "-PT0.5S", "-PT0.5S"),
        (DurationKind::Duration, "P0Y", "PT0S"),
        (DurationKind::Duration, "P1D", "P1D"),
        (DurationKind::YearMonthDuration, "P0Y", "P0M"),
        (DurationKind::YearMonthDuration, "P24M", "P2Y"),
        (DurationKind::DayTimeDuration, "PT0S", "PT0S"),
        (DurationKind::DayTimeDuration, "PT86400S", "P1D"),
    ];
    for (kind, text, canonical) in cases {
        let value = parse_duration(kind, text).unwrap();
        assert_eq!(format_duration(kind, &value), canonical);
        assert_eq!(parse_duration(kind, canonical), Some(value));
    }
}

#[test]
fn native_values_are_encoded_natively() {
    assert!(matches!(parse_decimal_str("1.5"), Some(EncodedTerm::DecimalLiteral(_))));
    assert!(matches!(parse_date_time_str("2020-01-01T00:00:00Z"), Some(EncodedTerm::DateTimeLiteral(_))));
    assert!(matches!(parse_time_str("00:00:00"), Some(EncodedTerm::TimeLiteral(_))));
    assert!(matches!(parse_date_str("2020-01-01"), Some(EncodedTerm::DateLiteral(_))));
    assert!(matches!(parse_g_year_month_str("2020-01"), Some(EncodedTerm::GYearMonthLiteral(_))));
    assert!(matches!(parse_g_year_str("2020"), Some(EncodedTerm::GYearLiteral(_))));
    assert!(matches!(parse_g_month_day_str("--01-01"), Some(EncodedTerm::GMonthDayLiteral(_))));
    assert!(matches!(parse_g_day_str("---01"), Some(EncodedTerm::GDayLiteral(_))));
    assert!(matches!(parse_g_month_str("--01"), Some(EncodedTerm::GMonthLiteral(_))));
    assert!(matches!(parse_duration_str("P1Y"), Some(EncodedTerm::DurationLiteral(_))));
    assert!(matches!(parse_year_month_duration_str("P1Y"), Some(EncodedTerm::YearMonthDurationLiteral(_))));
    assert!(matches!(parse_day_time_duration_str("P1D"), Some(EncodedTerm::DayTimeDurationLiteral(_))));
    assert!(parse_date_str("yesterday").is_none());
    let cases = [
        ("decimal", "1.5"),
        ("dateTime", "2020-01-01T00:00:00Z"),
        ("dateTimeStamp", "2020-01-01T00:00:00Z"),
        ("time", "12:00:00"),
        ("date", "2020-01-01"),
        ("gYearMonth", "2020-01"),
        ("gYear", "2020"),
        ("gMonthDay", "--01-01"),
        ("gDay", "---01"),
        ("gMonth", "--01"),
        ("duration", "P1Y"),
        ("yearMonthDuration", "P1Y"),
        ("dayTimeDuration", "P1D"),
    ];
    for (name, text) in cases {
        let encoded = EncodedTerm::from_term(&typed(text, name));
        assert!(encoded.is_literal() && !encoded.is_unknown_typed_literal(), "{}", name);
        let malformed = EncodedTerm::from_term(&typed("not a value", name));
        assert!(malformed.is_unknown_typed_literal(), "{}", name);
    }
}

#[test]
fn native_values_come_back_in_their_canonical_writing() {
    let cases = [
        ("decimal", "1.5", "decimal", "1.5"),
        ("decimal", "+01.50", "decimal", "1.5"),
        ("dateTime", "2020-01-01T00:00:00.10+00:00", "dateTime", "2020-01-01T00:00:00.1Z"),
        ("dateTimeStamp", "2020-01-01T00:00:00Z", "dateTime", "2020-01-01T00:00:00Z"),
        ("time", "12:00:00", "time", "12:00:00"),
        ("date", "2020-01-01", "date", "2020-01-01"),
        ("gYearMonth", "2020-01", "gYearMonth", "2020-01"),
        ("gYear", "2020", "gYear", "2020"),
        ("gMonthDay", "--01-01", "gMonthDay", "--01-01"),
        ("gDay", "---01", "gDay", "---01"),
        ("gMonth", "--01", "gMonth", "--01"),
        ("duration", "PT36H", "duration", "P1DT12H"),
        ("yearMonthDuration", "P14M", "yearMonthDuration", "P1Y2M"),
        ("dayTimeDuration", "PT60S", "dayTimeDuration", "PT1M"),
        ("date", "2020-02-30", "date", "2020-02-30"),
        ("decimal", "1,5", "decimal", "1,5"),
    ];
    for (name, text, back_name, back_text) in cases {
        assert_eq!(round_trip(&typed(text, name)), typed(back_text, back_name), "{} {}", name, text);
    }
}

#[test]
fn reading_what_was_written_gives_the_date_or_the_time_back() {
    let second = 1_000_000_000_000_000_000u128;
    let cases = vec![
        (DateTimeKind::DateTime, fields(2020, 2, 29, 23, 59, 59 * second + 999_999_999_999_999_999, Some(-840))),
        (DateTimeKind::DateTime, fields(-44, 3, 15, 0, 0, 0, None)),
        (DateTimeKind::DateTime, fields(12345, 12, 31, 12, 30, 30 * second + 500_000_000_000_000_000, Some(0))),
        (DateTimeKind::DateTime, fields(i64::MAX, 1, 1, 1, 1, second, Some(840))),
        (DateTimeKind::DateTime, fields(i64::MIN, 1, 1, 1, 1, 1, Some(1))),
        (DateTimeKind::DateTime, fields(0, 1, 1, 0, 0, 0, Some(-1))),
        (DateTimeKind::Time, fields(0, 0, 0, 13, 20, 30 * second + 10, Some(330))),
        (DateTimeKind::Time, fields(0, 0, 0, 0, 0, 0, None)),
        (DateTimeKind::Date, fields(1999, 12, 31, 0, 0, 0, Some(-60))),
        (DateTimeKind::Date, fields(-10000, 1, 1, 0, 0, 0, None)),
        (DateTimeKind::GYearMonth, fields(2000, 2, 0, 0, 0, 0, Some(0))),
        (DateTimeKind::GYear, fields(2000, 0, 0, 0, 0, 0, None)),
        (DateTimeKind::GYear, fields(-1, 0, 0, 0, 0, 0, Some(-90))),
        (DateTimeKind::GYear, fields(9999, 0, 0, 0, 0, 0, Some(90))),
        (DateTimeKind::GMonthDay, fields(0, 2, 29, 0, 0, 0, None)),
        (DateTimeKind::GDay, fields(0, 0, 31, 0, 0, 0, Some(0))),
        (DateTimeKind::GMonth, fields(0, 12, 0, 0, 0, 0, Some(840))),
    ];
    for (kind, value) in cases {
        let text = format_date_time(kind, &value);
        assert_eq!(parse_date_time(kind, &text), Some(value), "{:?} {}", kind, text);
    }
}

#[test]
fn reading_what_was_written_gives_the_duration_back() {
    let second = 1_000_000_000_000_000_000i128;
    let cases = vec![
        (DurationKind::Duration, Duration { months: 0, seconds: 0 }),
        (DurationKind::Duration, Duration { months: 14, seconds: 93_784 * second + 5 }),
        (DurationKind::Duration, Duration { months: -14, seconds: -(93_784 * second + second / 2) }),
        (DurationKind::Duration, Duration { months: 12, seconds: 0 }),
        (DurationKind::Duration, Duration { months: 0, seconds: 86_400 * second }),
        (DurationKind::Duration, Duration { months: 0, seconds: 1 }),
        (DurationKind::Duration, Duration { months: 0, seconds: -3600 * second }),
        (DurationKind::Duration, Duration { months: i64::MAX, seconds: i128::MAX }),
        (DurationKind::Duration, Duration { months: i64::MIN, seconds: i128::MIN }),
        (DurationKind::Duration, Duration { months: -1, seconds: 0 }),
        (DurationKind::YearMonthDuration, Duration { months: 0, seconds: 0 }),
        (DurationKind::YearMonthDuration, Duration { months: 25, seconds: 0 }),
        (DurationKind::YearMonthDuration, Duration { months: -11, seconds: 0 }),
        (DurationKind::DayTimeDuration, Duration { months: 0, seconds: 0 }),
        (DurationKind::DayTimeDuration, Duration { months: 0, seconds: 60 * second }),
        (DurationKind::DayTimeDuration, Duration { months: 0, seconds: -(59 * second + 999) }),
        (DurationKind::DayTimeDuration, Duration { months: 0, seconds: 172_800 * second }),
    ];
    for (kind, value) in cases {
        let text = format_duration(kind, &value);
        assert_eq!(parse_duration(kind, &text), Some(value), "{:?} {}", kind, text);
    }
}

#[test]
fn reading_what_was_written_gives_the_decimal_back() {
    for value in [0i128, 1, -1, 10, 1_500_000_000_000_000_000, -999, i128::MAX, i128::MIN, 1_000_000_000_000_000_000] {
        let decimal = Decimal { value };
        assert_eq!(parse_decimal(&format_decimal(&decimal)), Some(decimal));
    }
}

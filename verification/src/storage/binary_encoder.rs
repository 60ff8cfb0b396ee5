//! The layout of encoded terms in bytes: a tag that says which kind of term
//! follows, then the parts of the term, each of a width that the tag fixes.
//! A quoted triple is its tag and then its three terms.

use crate::model::date_time::DateTimeFields;
use crate::model::decimal::Decimal;
use crate::model::duration::Duration;
use crate::storage::be_bytes::{
    be_bytes, i128_of_unsigned, i128_to_unsigned, i16_of_unsigned, i16_to_unsigned,
    i64_of_unsigned, i64_to_unsigned, lemma_be_bytes, lemma_pow256_values, read_be,
    unsigned_of_i128, unsigned_of_i16, unsigned_of_i64, unsigned_to_i128, unsigned_to_i16,
    unsigned_to_i64, write_be,
};
use crate::storage::numeric_encoder::{
    be_bytes_value, encoded_term_wf, pow256, EncodedTerm, EncodedTriple, StrHash,
};
use crate::storage::small_string::{is_small_string_layout, SmallString};
use vstd::prelude::*;

verus! {

pub const TYPE_DEFAULT_GRAPH: u8 = 0;

pub const TYPE_NAMED_NODE_ID: u8 = 1;

pub const TYPE_NUMERICAL_BLANK_NODE_ID: u8 = 8;

pub const TYPE_SMALL_BLANK_NODE_ID: u8 = 9;

pub const TYPE_BIG_BLANK_NODE_ID: u8 = 10;

pub const TYPE_SMALL_STRING_LITERAL: u8 = 16;

pub const TYPE_BIG_STRING_LITERAL: u8 = 17;

pub const TYPE_SMALL_SMALL_LANG_STRING_LITERAL: u8 = 20;

pub const TYPE_SMALL_BIG_LANG_STRING_LITERAL: u8 = 21;

pub const TYPE_BIG_SMALL_LANG_STRING_LITERAL: u8 = 22;

pub const TYPE_BIG_BIG_LANG_STRING_LITERAL: u8 = 23;

pub const TYPE_SMALL_TYPED_LITERAL: u8 = 24;

pub const TYPE_BIG_TYPED_LITERAL: u8 = 25;

pub const TYPE_BOOLEAN_LITERAL_TRUE: u8 = 28;

pub const TYPE_BOOLEAN_LITERAL_FALSE: u8 = 29;

pub const TYPE_FLOAT_LITERAL: u8 = 30;

pub const TYPE_DOUBLE_LITERAL: u8 = 31;

pub const TYPE_INTEGER_LITERAL: u8 = 32;

pub const TYPE_DECIMAL_LITERAL: u8 = 33;

pub const TYPE_DATE_TIME_LITERAL: u8 = 34;

pub const TYPE_TIME_LITERAL: u8 = 35;

pub const TYPE_DATE_LITERAL: u8 = 36;

pub const TYPE_G_YEAR_MONTH_LITERAL: u8 = 37;

pub const TYPE_G_YEAR_LITERAL: u8 = 38;

pub const TYPE_G_MONTH_DAY_LITERAL: u8 = 39;

pub const TYPE_G_DAY_LITERAL: u8 = 40;

pub const TYPE_G_MONTH_LITERAL: u8 = 41;

pub const TYPE_DURATION_LITERAL: u8 = 42;

pub const TYPE_YEAR_MONTH_DURATION_LITERAL: u8 = 43;

pub const TYPE_DAY_TIME_DURATION_LITERAL: u8 = 44;

pub const TYPE_TRIPLE: u8 = 48;

/// The layout of the fields of a date or a time, in 31 bytes: the year in
/// 8, the month, the day, the hour and the minute in one each, the seconds
/// in 16, and the timezone in 3: whether there is one, and its offset.
pub open spec fn date_time_layout(fields: DateTimeFields) -> Seq<u8> {
    be_bytes(unsigned_of_i64(fields.year), 8) + seq![
        fields.month,
        fields.day,
        fields.hour,
        fields.minute,
    ] + be_bytes(fields.second as nat, 16) + match fields.timezone_offset {
        None => seq![0u8, 0u8, 0u8],
        Some(offset) => seq![1u8] + be_bytes(unsigned_of_i16(offset), 2),
    }
}

/// The layout of a duration, in 24 bytes: its months in 8 and its seconds in
/// 16.
pub open spec fn duration_layout(duration: Duration) -> Seq<u8> {
    be_bytes(unsigned_of_i64(duration.months), 8) + be_bytes(
        unsigned_of_i128(duration.seconds),
        16,
    )
}

/// The layout of an identifier, in 16 bytes.
pub open spec fn hash_layout(hash: StrHash) -> Seq<u8> {
    be_bytes(hash.hash as nat, 16)
}

/// The parts of a term that is no quoted triple, behind its tag.
pub open spec fn payload_bytes(term: EncodedTerm) -> Seq<u8> {
    match term {
        EncodedTerm::DefaultGraph => Seq::empty(),
        EncodedTerm::NamedNode { iri_id } => hash_layout(iri_id),
        EncodedTerm::NumericalBlankNode { id } => be_bytes(id as nat, 16),
        EncodedTerm::SmallBlankNode(id) => id.layout(),
        EncodedTerm::BigBlankNode { id_id } => hash_layout(id_id),
        EncodedTerm::SmallStringLiteral(value) => value.layout(),
        EncodedTerm::BigStringLiteral { value_id } => hash_layout(value_id),
        EncodedTerm::SmallSmallLangStringLiteral { value, language } => language.layout()
            + value.layout(),
        EncodedTerm::SmallBigLangStringLiteral { value, language_id } => hash_layout(language_id)
            + value.layout(),
        EncodedTerm::BigSmallLangStringLiteral { value_id, language } => language.layout()
            + hash_layout(value_id),
        EncodedTerm::BigBigLangStringLiteral { value_id, language_id } => hash_layout(
            language_id,
        ) + hash_layout(value_id),
        EncodedTerm::SmallTypedLiteral { value, datatype_id } => hash_layout(datatype_id)
            + value.layout(),
        EncodedTerm::BigTypedLiteral { value_id, datatype_id } => hash_layout(datatype_id)
            + hash_layout(value_id),
        EncodedTerm::BooleanLiteral(_) => Seq::empty(),
        EncodedTerm::FloatLiteral(bits) => be_bytes(bits as nat, 4),
        EncodedTerm::DoubleLiteral(bits) => be_bytes(bits as nat, 8),
        EncodedTerm::IntegerLiteral(value) => be_bytes(unsigned_of_i64(value), 8),
        EncodedTerm::DecimalLiteral(value) => be_bytes(unsigned_of_i128(value.value), 16),
        EncodedTerm::DateTimeLiteral(value) => date_time_layout(value),
        EncodedTerm::TimeLiteral(value) => date_time_layout(value),
        EncodedTerm::DateLiteral(value) => date_time_layout(value),
        EncodedTerm::GYearMonthLiteral(value) => date_time_layout(value),
        EncodedTerm::GYearLiteral(value) => date_time_layout(value),
        EncodedTerm::GMonthDayLiteral(value) => date_time_layout(value),
        EncodedTerm::GDayLiteral(value) => date_time_layout(value),
        EncodedTerm::GMonthLiteral(value) => date_time_layout(value),
        EncodedTerm::DurationLiteral(value) => duration_layout(value),
        EncodedTerm::YearMonthDurationLiteral(value) => duration_layout(value),
        EncodedTerm::DayTimeDurationLiteral(value) => duration_layout(value),
        EncodedTerm::Triple(_) => Seq::empty(),
    }
}

/// The tag of a term.
pub open spec fn tag_of(term: EncodedTerm) -> u8 {
    match term {
        EncodedTerm::DefaultGraph => 0,
        EncodedTerm::NamedNode { .. } => 1,
        EncodedTerm::NumericalBlankNode { .. } => 8,
        EncodedTerm::SmallBlankNode(_) => 9,
        EncodedTerm::BigBlankNode { .. } => 10,
        EncodedTerm::SmallStringLiteral(_) => 16,
        EncodedTerm::BigStringLiteral { .. } => 17,
        EncodedTerm::SmallSmallLangStringLiteral { .. } => 20,
        EncodedTerm::SmallBigLangStringLiteral { .. } => 21,
        EncodedTerm::BigSmallLangStringLiteral { .. } => 22,
        EncodedTerm::BigBigLangStringLiteral { .. } => 23,
        EncodedTerm::SmallTypedLiteral { .. } => 24,
        EncodedTerm::BigTypedLiteral { .. } => 25,
        EncodedTerm::BooleanLiteral(value) => if value {
            28
        } else {
            29
        },
        EncodedTerm::FloatLiteral(_) => 30,
        EncodedTerm::DoubleLiteral(_) => 31,
        EncodedTerm::IntegerLiteral(_) => 32,
        EncodedTerm::DecimalLiteral(_) => 33,
        EncodedTerm::DateTimeLiteral(_) => 34,
        EncodedTerm::TimeLiteral(_) => 35,
        EncodedTerm::DateLiteral(_) => 36,
        EncodedTerm::GYearMonthLiteral(_) => 37,
        EncodedTerm::GYearLiteral(_) => 38,
        EncodedTerm::GMonthDayLiteral(_) => 39,
        EncodedTerm::GDayLiteral(_) => 40,
        EncodedTerm::GMonthLiteral(_) => 41,
        EncodedTerm::DurationLiteral(_) => 42,
        EncodedTerm::YearMonthDurationLiteral(_) => 43,
        EncodedTerm::DayTimeDurationLiteral(_) => 44,
        EncodedTerm::Triple(_) => 48,
    }
}

/// The layout of a term: its tag, then its parts, or the layouts of its
/// three terms for a quoted triple.
pub open spec fn term_bytes(term: EncodedTerm) -> Seq<u8>
    decreases term,
{
    match term {
        EncodedTerm::Triple(triple) => seq![48u8] + term_bytes(triple.subject) + term_bytes(
            triple.predicate,
        ) + term_bytes(triple.object),
        _ => seq![tag_of(term)] + payload_bytes(term),
    }
}

fn write_hash(out: &mut Vec<u8>, hash: &StrHash)
    ensures
        final(out)@ == old(out)@ + hash_layout(*hash),
{
    write_be(out, hash.hash, 16);
}

fn write_tag(out: &mut Vec<u8>, tag: u8)
    ensures
        final(out)@ == old(out)@ + seq![tag],
{
    out.push(tag);
    proof {
        assert(out@ =~= old(out)@ + seq![tag]);
    }
}

fn write_date_time(out: &mut Vec<u8>, fields: &DateTimeFields)
    ensures
        final(out)@ == old(out)@ + date_time_layout(*fields),
{
    let ghost start = out@;
    write_be(out, i64_to_unsigned(fields.year) as u128, 8);
    out.push(fields.month);
    out.push(fields.day);
    out.push(fields.hour);
    out.push(fields.minute);
    write_be(out, fields.second, 16);
    match fields.timezone_offset {
        None => {
            out.push(0);
            out.push(0);
            out.push(0);
        },
        Some(offset) => {
            out.push(1);
            write_be(out, i16_to_unsigned(offset) as u128, 2);
        },
    }
    proof {
        assert(out@ =~= start + date_time_layout(*fields));
    }
}

fn write_duration(out: &mut Vec<u8>, duration: &Duration)
    ensures
        final(out)@ == old(out)@ + duration_layout(*duration),
{
    let ghost start = out@;
    write_be(out, i64_to_unsigned(duration.months) as u128, 8);
    write_be(out, i128_to_unsigned(duration.seconds), 16);
    proof {
        assert(out@ =~= start + duration_layout(*duration));
    }
}

fn write_payload(out: &mut Vec<u8>, term: &EncodedTerm)
    requires
        !(*term is Triple),
    ensures
        final(out)@ == old(out)@ + payload_bytes(*term),
        encoded_term_wf(*term),
{
    let ghost start = out@;
    match term {
        EncodedTerm::DefaultGraph => {},
        EncodedTerm::NamedNode { iri_id } => write_hash(out, iri_id),
        EncodedTerm::NumericalBlankNode { id } => write_be(out, *id, 16),
        EncodedTerm::SmallBlankNode(id) => id.write_to(out),
        EncodedTerm::BigBlankNode { id_id } => write_hash(out, id_id),
        EncodedTerm::SmallStringLiteral(value) => value.write_to(out),
        EncodedTerm::BigStringLiteral { value_id } => write_hash(out, value_id),
        EncodedTerm::SmallSmallLangStringLiteral { value, language } => {
            language.write_to(out);
            value.write_to(out);
        },
        EncodedTerm::SmallBigLangStringLiteral { value, language_id } => {
            write_hash(out, language_id);
            value.write_to(out);
        },
        EncodedTerm::BigSmallLangStringLiteral { value_id, language } => {
            language.write_to(out);
            write_hash(out, value_id);
        },
        EncodedTerm::BigBigLangStringLiteral { value_id, language_id } => {
            write_hash(out, language_id);
            write_hash(out, value_id);
        },
        EncodedTerm::SmallTypedLiteral { value, datatype_id } => {
            write_hash(out, datatype_id);
            value.write_to(out);
        },
        EncodedTerm::BigTypedLiteral { value_id, datatype_id } => {
            write_hash(out, datatype_id);
            write_hash(out, value_id);
        },
        EncodedTerm::BooleanLiteral(_) => {},
        EncodedTerm::FloatLiteral(bits) => write_be(out, *bits as u128, 4),
        EncodedTerm::DoubleLiteral(bits) => write_be(out, *bits as u128, 8),
        EncodedTerm::IntegerLiteral(value) => write_be(out, i64_to_unsigned(*value) as u128, 8),
        EncodedTerm::DecimalLiteral(value) => write_be(out, i128_to_unsigned(value.value), 16),
        EncodedTerm::DateTimeLiteral(value) => write_date_time(out, value),
        EncodedTerm::TimeLiteral(value) => write_date_time(out, value),
        EncodedTerm::DateLiteral(value) => write_date_time(out, value),
        EncodedTerm::GYearMonthLiteral(value) => write_date_time(out, value),
        EncodedTerm::GYearLiteral(value) => write_date_time(out, value),
        EncodedTerm::GMonthDayLiteral(value) => write_date_time(out, value),
        EncodedTerm::GDayLiteral(value) => write_date_time(out, value),
        EncodedTerm::GMonthLiteral(value) => write_date_time(out, value),
        EncodedTerm::DurationLiteral(value) => write_duration(out, value),
        EncodedTerm::YearMonthDurationLiteral(value) => write_duration(out, value),
        EncodedTerm::DayTimeDurationLiteral(value) => write_duration(out, value),
        EncodedTerm::Triple(_) => {},
    }
    proof {
        assert(out@ =~= start + payload_bytes(*term));
    }
}

fn tag(term: &EncodedTerm) -> (r: u8)
    ensures
        r == tag_of(*term),
{
    match term {
        EncodedTerm::DefaultGraph => TYPE_DEFAULT_GRAPH,
        EncodedTerm::NamedNode { .. } => TYPE_NAMED_NODE_ID,
        EncodedTerm::NumericalBlankNode { .. } => TYPE_NUMERICAL_BLANK_NODE_ID,
        EncodedTerm::SmallBlankNode(_) => TYPE_SMALL_BLANK_NODE_ID,
        EncodedTerm::BigBlankNode { .. } => TYPE_BIG_BLANK_NODE_ID,
        EncodedTerm::SmallStringLiteral(_) => TYPE_SMALL_STRING_LITERAL,
        EncodedTerm::BigStringLiteral { .. } => TYPE_BIG_STRING_LITERAL,
        EncodedTerm::SmallSmallLangStringLiteral { .. } => TYPE_SMALL_SMALL_LANG_STRING_LITERAL,
        EncodedTerm::SmallBigLangStringLiteral { .. } => TYPE_SMALL_BIG_LANG_STRING_LITERAL,
        EncodedTerm::BigSmallLangStringLiteral { .. } => TYPE_BIG_SMALL_LANG_STRING_LITERAL,
        EncodedTerm::BigBigLangStringLiteral { .. } => TYPE_BIG_BIG_LANG_STRING_LITERAL,
        EncodedTerm::SmallTypedLiteral { .. } => TYPE_SMALL_TYPED_LITERAL,
        EncodedTerm::BigTypedLiteral { .. } => TYPE_BIG_TYPED_LITERAL,
        EncodedTerm::BooleanLiteral(value) => if *value {
            TYPE_BOOLEAN_LITERAL_TRUE
        } else {
            TYPE_BOOLEAN_LITERAL_FALSE
        },
        EncodedTerm::FloatLiteral(_) => TYPE_FLOAT_LITERAL,
        EncodedTerm::DoubleLiteral(_) => TYPE_DOUBLE_LITERAL,
        EncodedTerm::IntegerLiteral(_) => TYPE_INTEGER_LITERAL,
        EncodedTerm::DecimalLiteral(_) => TYPE_DECIMAL_LITERAL,
        EncodedTerm::DateTimeLiteral(_) => TYPE_DATE_TIME_LITERAL,
        EncodedTerm::TimeLiteral(_) => TYPE_TIME_LITERAL,
        EncodedTerm::DateLiteral(_) => TYPE_DATE_LITERAL,
        EncodedTerm::GYearMonthLiteral(_) => TYPE_G_YEAR_MONTH_LITERAL,
        EncodedTerm::GYearLiteral(_) => TYPE_G_YEAR_LITERAL,
        EncodedTerm::GMonthDayLiteral(_) => TYPE_G_MONTH_DAY_LITERAL,
        EncodedTerm::GDayLiteral(_) => TYPE_G_DAY_LITERAL,
        EncodedTerm::GMonthLiteral(_) => TYPE_G_MONTH_LITERAL,
        EncodedTerm::DurationLiteral(_) => TYPE_DURATION_LITERAL,
        EncodedTerm::YearMonthDurationLiteral(_) => TYPE_YEAR_MONTH_DURATION_LITERAL,
        EncodedTerm::DayTimeDurationLiteral(_) => TYPE_DAY_TIME_DURATION_LITERAL,
        EncodedTerm::Triple(_) => TYPE_TRIPLE,
    }
}

/// Appends the layout of a term to `out`. Every small string of a term
/// that can be written is in order.
pub fn write_term(out: &mut Vec<u8>, term: &EncodedTerm)
    ensures
        final(out)@ == old(out)@ + term_bytes(*term),
        encoded_term_wf(*term),
    decreases *term,
{
    let ghost start = out@;
    match term {
        EncodedTerm::Triple(triple) => {
            write_tag(out, TYPE_TRIPLE);
            write_term(out, &triple.subject);
            write_term(out, &triple.predicate);
            write_term(out, &triple.object);
            proof {
                assert(out@ =~= start + term_bytes(*term));
            }
        },
        _ => {
            write_tag(out, tag(term));
            write_payload(out, term);
            proof {
                assert(out@ =~= start + term_bytes(*term));
            }
        },
    }
}

/// The number that the bytes of a width at a place denote, if the text is
/// long enough.
pub open spec fn number_at(bytes: Seq<u8>, at: int, width: int) -> Option<nat> {
    if 0 <= at && at + width <= bytes.len() {
        Some(be_bytes_value(bytes.subrange(at, at + width)))
    } else {
        None
    }
}

/// The inline string whose layout stands at a place, if one stands there.
pub open spec fn small_string_at(bytes: Seq<u8>, at: int) -> Option<SmallString> {
    if 0 <= at && at + 17 <= bytes.len() && is_small_string_layout(bytes.subrange(at, at + 17)) {
        Some(choose|s: SmallString| s.wf() && s.layout() == bytes.subrange(at, at + 17))
    } else {
        None
    }
}

/// The identifier that stands at a place.
pub open spec fn hash_at(bytes: Seq<u8>, at: int) -> Option<StrHash> {
    match number_at(bytes, at, 16) {
        Some(value) => Some(StrHash { hash: value as u128 }),
        None => None,
    }
}

/// The fields of a date or a time whose layout stands at a place. The byte
/// that says whether there is a timezone has to be 0, with two zeros behind,
/// or 1.
pub open spec fn date_time_at(bytes: Seq<u8>, at: int) -> Option<DateTimeFields> {
    if 0 <= at && at + 31 <= bytes.len() {
        let offset = be_bytes_value(bytes.subrange(at + 29, at + 31));
        let timezone_offset = if bytes[at + 28] == 0 {
            None
        } else {
            Some(i16_of_unsigned(offset))
        };
        if bytes[at + 28] > 1 || (bytes[at + 28] == 0 && offset != 0) {
            None
        } else {
            Some(
                DateTimeFields {
                    year: i64_of_unsigned(be_bytes_value(bytes.subrange(at, at + 8))),
                    month: bytes[at + 8],
                    day: bytes[at + 9],
                    hour: bytes[at + 10],
                    minute: bytes[at + 11],
                    second: be_bytes_value(bytes.subrange(at + 12, at + 28)) as u128,
                    timezone_offset,
                },
            )
        }
    } else {
        None
    }
}

/// The duration whose layout stands at a place.
pub open spec fn duration_at(bytes: Seq<u8>, at: int) -> Option<Duration> {
    if 0 <= at && at + 24 <= bytes.len() {
        Some(
            Duration {
                months: i64_of_unsigned(be_bytes_value(bytes.subrange(at, at + 8))),
                seconds: i128_of_unsigned(be_bytes_value(bytes.subrange(at + 8, at + 24))),
            },
        )
    } else {
        None
    }
}

/// The term of a tag whose parts stand at a place, and the place behind
/// them. None for the tag of a quoted triple and for a byte that is no tag.
pub open spec fn payload_at(tag: u8, bytes: Seq<u8>, at: int) -> Option<(EncodedTerm, int)> {
    if tag == 0 {
        Some((EncodedTerm::DefaultGraph, at))
    } else if tag == 1 {
        match hash_at(bytes, at) {
            Some(iri_id) => Some((EncodedTerm::NamedNode { iri_id }, at + 16)),
            None => None,
        }
    } else if tag == 8 {
        match number_at(bytes, at, 16) {
            Some(id) => Some((EncodedTerm::NumericalBlankNode { id: id as u128 }, at + 16)),
            None => None,
        }
    } else if tag == 9 {
        match small_string_at(bytes, at) {
            Some(id) => Some((EncodedTerm::SmallBlankNode(id), at + 17)),
            None => None,
        }
    } else if tag == 10 {
        match hash_at(bytes, at) {
            Some(id_id) => Some((EncodedTerm::BigBlankNode { id_id }, at + 16)),
            None => None,
        }
    } else if tag == 16 {
        match small_string_at(bytes, at) {
            Some(value) => Some((EncodedTerm::SmallStringLiteral(value), at + 17)),
            None => None,
        }
    } else if tag == 17 {
        match hash_at(bytes, at) {
            Some(value_id) => Some((EncodedTerm::BigStringLiteral { value_id }, at + 16)),
            None => None,
        }
    } else if tag == 20 {
        match (small_string_at(bytes, at), small_string_at(bytes, at + 17)) {
            (Some(language), Some(value)) => Some(
                (EncodedTerm::SmallSmallLangStringLiteral { value, language }, at + 34),
            ),
            _ => None,
        }
    } else if tag == 21 {
        match (hash_at(bytes, at), small_string_at(bytes, at + 16)) {
            (Some(language_id), Some(value)) => Some(
                (EncodedTerm::SmallBigLangStringLiteral { value, language_id }, at + 33),
            ),
            _ => None,
        }
    } else if tag == 22 {
        match (small_string_at(bytes, at), hash_at(bytes, at + 17)) {
            (Some(language), Some(value_id)) => Some(
                (EncodedTerm::BigSmallLangStringLiteral { value_id, language }, at + 33),
            ),
            _ => None,
        }
    } else if tag == 23 {
        match (hash_at(bytes, at), hash_at(bytes, at + 16)) {
            (Some(language_id), Some(value_id)) => Some(
                (EncodedTerm::BigBigLangStringLiteral { value_id, language_id }, at + 32),
            ),
            _ => None,
        }
    } else if tag == 24 {
        match (hash_at(bytes, at), small_string_at(bytes, at + 16)) {
            (Some(datatype_id), Some(value)) => Some(
                (EncodedTerm::SmallTypedLiteral { value, datatype_id }, at + 33),
            ),
            _ => None,
        }
    } else if tag == 25 {
        match (hash_at(bytes, at), hash_at(bytes, at + 16)) {
            (Some(datatype_id), Some(value_id)) => Some(
                (EncodedTerm::BigTypedLiteral { value_id, datatype_id }, at + 32),
            ),
            _ => None,
        }
    } else if tag == 28 {
        Some((EncodedTerm::BooleanLiteral(true), at))
    } else if tag == 29 {
        Some((EncodedTerm::BooleanLiteral(false), at))
    } else if tag == 30 {
        match number_at(bytes, at, 4) {
            Some(bits) => Some((EncodedTerm::FloatLiteral(bits as u32), at + 4)),
            None => None,
        }
    } else if tag == 31 {
        match number_at(bytes, at, 8) {
            Some(bits) => Some((EncodedTerm::DoubleLiteral(bits as u64), at + 8)),
            None => None,
        }
    } else if tag == 32 {
        match number_at(bytes, at, 8) {
            Some(value) => Some((EncodedTerm::IntegerLiteral(i64_of_unsigned(value)), at + 8)),
            None => None,
        }
    } else if tag == 33 {
        match number_at(bytes, at, 16) {
            Some(value) => Some(
                (
                    EncodedTerm::DecimalLiteral(Decimal { value: i128_of_unsigned(value) }),
                    at + 16,
                ),
            ),
            None => None,
        }
    } else if 34 <= tag <= 41 {
        match date_time_at(bytes, at) {
            Some(fields) => Some(
                (
                    if tag == 34 {
                        EncodedTerm::DateTimeLiteral(fields)
                    } else if tag == 35 {
                        EncodedTerm::TimeLiteral(fields)
                    } else if tag == 36 {
                        EncodedTerm::DateLiteral(fields)
                    } else if tag == 37 {
                        EncodedTerm::GYearMonthLiteral(fields)
                    } else if tag == 38 {
                        EncodedTerm::GYearLiteral(fields)
                    } else if tag == 39 {
                        EncodedTerm::GMonthDayLiteral(fields)
                    } else if tag == 40 {
                        EncodedTerm::GDayLiteral(fields)
                    } else {
                        EncodedTerm::GMonthLiteral(fields)
                    },
                    at + 31,
                ),
            ),
            None => None,
        }
    } else if 42 <= tag <= 44 {
        match duration_at(bytes, at) {
            Some(duration) => Some(
                (
                    if tag == 42 {
                        EncodedTerm::DurationLiteral(duration)
                    } else if tag == 43 {
                        EncodedTerm::YearMonthDurationLiteral(duration)
                    } else {
                        EncodedTerm::DayTimeDurationLiteral(duration)
                    },
                    at + 24,
                ),
            ),
            None => None,
        }
    } else {
        None
    }
}

/// The term whose layout stands at a place, and the place behind it.
pub open spec fn term_at(bytes: Seq<u8>, at: int) -> Option<(EncodedTerm, int)>
    decreases bytes.len() - at,
{
    if at < 0 || at >= bytes.len() {
        None
    } else if bytes[at] == 48 {
        match term_at(bytes, at + 1) {
            None => None,
            Some((subject, after_subject)) => if after_subject <= at || after_subject
                > bytes.len() {
                None
            } else {
                match term_at(bytes, after_subject) {
                    None => None,
                    Some((predicate, after_predicate)) => if after_predicate <= at
                        || after_predicate > bytes.len() {
                        None
                    } else {
                        match term_at(bytes, after_predicate) {
                            None => None,
                            Some((object, after_object)) => Some(
                                (
                                    EncodedTerm::Triple(
                                        Box::new(EncodedTriple { subject, predicate, object }),
                                    ),
                                    after_object,
                                ),
                            ),
                        }
                    },
                }
            },
        }
    } else {
        payload_at(bytes[at], bytes, at + 1)
    }
}

fn read_hash(bytes: &[u8], at: usize) -> (r: Option<StrHash>)
    requires
        at <= bytes@.len(),
    ensures
        r == hash_at(bytes@, at as int),
        r is Some ==> at + 16 <= bytes@.len(),
{
    if bytes.len() - at < 16 {
        None
    } else {
        Some(StrHash { hash: read_be(bytes, at, 16) })
    }
}

fn read_small_string(bytes: &[u8], at: usize) -> (r: Option<SmallString>)
    requires
        at <= bytes@.len(),
    ensures
        r == small_string_at(bytes@, at as int),
        r matches Some(s) ==> s.wf(),
        r is Some ==> at + 17 <= bytes@.len(),
{
    if bytes.len() - at < 17 {
        None
    } else {
        let r = SmallString::read_from(bytes, at);
        proof {
            if let Some(s) = r {
                let layout = bytes@.subrange(at as int, at + 17);
                let chosen = choose|c: SmallString| c.wf() && c.layout() == layout;
                s.lemma_layout_injective(chosen);
            }
        }
        r
    }
}

fn read_date_time(bytes: &[u8], at: usize) -> (r: Option<DateTimeFields>)
    requires
        at <= bytes@.len(),
    ensures
        r == date_time_at(bytes@, at as int),
        r is Some ==> at + 31 <= bytes@.len(),
{
    if bytes.len() - at < 31 {
        return None;
    }
    proof {
        lemma_pow256_values();
    }
    let flag = bytes[at + 28];
    let offset = read_be(bytes, at + 29, 2);
    if flag > 1 || (flag == 0 && offset != 0) {
        return None;
    }
    let timezone_offset = if flag == 0 {
        None
    } else {
        Some(unsigned_to_i16(offset as u16))
    };
    Some(
        DateTimeFields {
            year: unsigned_to_i64(read_be(bytes, at, 8) as u64),
            month: bytes[at + 8],
            day: bytes[at + 9],
            hour: bytes[at + 10],
            minute: bytes[at + 11],
            second: read_be(bytes, at + 12, 16),
            timezone_offset,
        },
    )
}

fn read_duration(bytes: &[u8], at: usize) -> (r: Option<Duration>)
    requires
        at <= bytes@.len(),
    ensures
        r == duration_at(bytes@, at as int),
        r is Some ==> at + 24 <= bytes@.len(),
{
    if bytes.len() - at < 24 {
        return None;
    }
    proof {
        lemma_pow256_values();
    }
    Some(
        Duration {
            months: unsigned_to_i64(read_be(bytes, at, 8) as u64),
            seconds: unsigned_to_i128(read_be(bytes, at + 8, 16)),
        },
    )
}

/// What a reading gives: the term and the place behind it, as the layout
/// says.
pub open spec fn reading(r: Option<(EncodedTerm, usize)>, expected: Option<(EncodedTerm, int)>) -> bool {
    match r {
        Some((term, next)) => expected == Some((term, next as int)),
        None => expected is None,
    }
}

fn read_number(bytes: &[u8], at: usize, width: usize) -> (r: Option<u128>)
    requires
        at <= bytes@.len(),
        width <= 16,
    ensures
        match r {
            Some(value) => number_at(bytes@, at as int, width as int) == Some(value as nat)
                && (value as nat) < pow256(width as nat) && at + width <= bytes@.len(),
            None => number_at(bytes@, at as int, width as int) is None,
        },
{
    if bytes.len() - at < width {
        None
    } else {
        Some(read_be(bytes, at, width))
    }
}

fn read_payload(tag: u8, bytes: &[u8], at: usize) -> (r: Option<(EncodedTerm, usize)>)
    requires
        at <= bytes@.len(),
    ensures
        reading(r, payload_at(tag, bytes@, at as int)),
        r matches Some((term, next)) ==> next <= bytes@.len() && encoded_term_wf(term),
{
    proof {
        lemma_pow256_values();
    }
    let n = bytes.len();
    if tag == TYPE_DEFAULT_GRAPH {
        Some((EncodedTerm::DefaultGraph, at))
    } else if tag == TYPE_NAMED_NODE_ID {
        match read_hash(bytes, at) {
            Some(iri_id) => Some((EncodedTerm::NamedNode { iri_id }, at + 16)),
            None => None,
        }
    } else if tag == TYPE_NUMERICAL_BLANK_NODE_ID {
        match read_number(bytes, at, 16) {
            Some(id) => Some((EncodedTerm::NumericalBlankNode { id }, at + 16)),
            None => None,
        }
    } else if tag == TYPE_SMALL_BLANK_NODE_ID {
        match read_small_string(bytes, at) {
            Some(id) => Some((EncodedTerm::SmallBlankNode(id), at + 17)),
            None => None,
        }
    } else if tag == TYPE_BIG_BLANK_NODE_ID {
        match read_hash(bytes, at) {
            Some(id_id) => Some((EncodedTerm::BigBlankNode { id_id }, at + 16)),
            None => None,
        }
    } else if tag == TYPE_SMALL_STRING_LITERAL {
        match read_small_string(bytes, at) {
            Some(value) => Some((EncodedTerm::SmallStringLiteral(value), at + 17)),
            None => None,
        }
    } else if tag == TYPE_BIG_STRING_LITERAL {
        match read_hash(bytes, at) {
            Some(value_id) => Some((EncodedTerm::BigStringLiteral { value_id }, at + 16)),
            None => None,
        }
    } else if tag == TYPE_SMALL_SMALL_LANG_STRING_LITERAL {
        if bytes.len() - at < 34 {
            return None;
        }
        match (read_small_string(bytes, at), read_small_string(bytes, at + 17)) {
            (Some(language), Some(value)) => Some(
                (EncodedTerm::SmallSmallLangStringLiteral { value, language }, at + 34),
            ),
            _ => None,
        }
    } else if tag == TYPE_SMALL_BIG_LANG_STRING_LITERAL {
        if bytes.len() - at < 33 {
            return None;
        }
        match (read_hash(bytes, at), read_small_string(bytes, at + 16)) {
            (Some(language_id), Some(value)) => Some(
                (EncodedTerm::SmallBigLangStringLiteral { value, language_id }, at + 33),
            ),
            _ => None,
        }
    } else if tag == TYPE_BIG_SMALL_LANG_STRING_LITERAL {
        if bytes.len() - at < 33 {
            return None;
        }
        match (read_small_string(bytes, at), read_hash(bytes, at + 17)) {
            (Some(language), Some(value_id)) => Some(
                (EncodedTerm::BigSmallLangStringLiteral { value_id, language }, at + 33),
            ),
            _ => None,
        }
    } else if tag == TYPE_BIG_BIG_LANG_STRING_LITERAL {
        if bytes.len() - at < 32 {
            return None;
        }
        match (read_hash(bytes, at), read_hash(bytes, at + 16)) {
            (Some(language_id), Some(value_id)) => Some(
                (EncodedTerm::BigBigLangStringLiteral { value_id, language_id }, at + 32),
            ),
            _ => None,
        }
    } else if tag == TYPE_SMALL_TYPED_LITERAL {
        if bytes.len() - at < 33 {
            return None;
        }
        match (read_hash(bytes, at), read_small_string(bytes, at + 16)) {
            (Some(datatype_id), Some(value)) => Some(
                (EncodedTerm::SmallTypedLiteral { value, datatype_id }, at + 33),
            ),
            _ => None,
        }
    } else if tag == TYPE_BIG_TYPED_LITERAL {
        if bytes.len() - at < 32 {
            return None;
        }
        match (read_hash(bytes, at), read_hash(bytes, at + 16)) {
            (Some(datatype_id), Some(value_id)) => Some(
                (EncodedTerm::BigTypedLiteral { value_id, datatype_id }, at + 32),
            ),
            _ => None,
        }
    } else if tag == TYPE_BOOLEAN_LITERAL_TRUE {
        Some((EncodedTerm::BooleanLiteral(true), at))
    } else if tag == TYPE_BOOLEAN_LITERAL_FALSE {
        Some((EncodedTerm::BooleanLiteral(false), at))
    } else if tag == TYPE_FLOAT_LITERAL {
        match read_number(bytes, at, 4) {
            Some(bits) => Some((EncodedTerm::FloatLiteral(bits as u32), at + 4)),
            None => None,
        }
    } else if tag == TYPE_DOUBLE_LITERAL {
        match read_number(bytes, at, 8) {
            Some(bits) => Some((EncodedTerm::DoubleLiteral(bits as u64), at + 8)),
            None => None,
        }
    } else if tag == TYPE_INTEGER_LITERAL {
        match read_number(bytes, at, 8) {
            Some(value) => Some(
                (EncodedTerm::IntegerLiteral(unsigned_to_i64(value as u64)), at + 8),
            ),
            None => None,
        }
    } else if tag == TYPE_DECIMAL_LITERAL {
        match read_number(bytes, at, 16) {
            Some(value) => Some(
                (EncodedTerm::DecimalLiteral(Decimal { value: unsigned_to_i128(value) }), at + 16),
            ),
            None => None,
        }
    } else if tag >= TYPE_DATE_TIME_LITERAL && tag <= TYPE_G_MONTH_LITERAL {
        match read_date_time(bytes, at) {
            Some(fields) => Some(
                (
                    if tag == TYPE_DATE_TIME_LITERAL {
                        EncodedTerm::DateTimeLiteral(fields)
                    } else if tag == TYPE_TIME_LITERAL {
                        EncodedTerm::TimeLiteral(fields)
                    } else if tag == TYPE_DATE_LITERAL {
                        EncodedTerm::DateLiteral(fields)
                    } else if tag == TYPE_G_YEAR_MONTH_LITERAL {
                        EncodedTerm::GYearMonthLiteral(fields)
                    } else if tag == TYPE_G_YEAR_LITERAL {
                        EncodedTerm::GYearLiteral(fields)
                    } else if tag == TYPE_G_MONTH_DAY_LITERAL {
                        EncodedTerm::GMonthDayLiteral(fields)
                    } else if tag == TYPE_G_DAY_LITERAL {
                        EncodedTerm::GDayLiteral(fields)
                    } else {
                        EncodedTerm::GMonthLiteral(fields)
                    },
                    at + 31,
                ),
            ),
            None => None,
        }
    } else if tag >= TYPE_DURATION_LITERAL && tag <= TYPE_DAY_TIME_DURATION_LITERAL {
        match read_duration(bytes, at) {
            Some(duration) => Some(
                (
                    if tag == TYPE_DURATION_LITERAL {
                        EncodedTerm::DurationLiteral(duration)
                    } else if tag == TYPE_YEAR_MONTH_DURATION_LITERAL {
                        EncodedTerm::YearMonthDurationLiteral(duration)
                    } else {
                        EncodedTerm::DayTimeDurationLiteral(duration)
                    },
                    at + 24,
                ),
            ),
            None => None,
        }
    } else {
        None
    }
}

/// Reads the term whose layout stands at a place, if one stands there, with
/// the place behind it.
pub fn read_term(bytes: &[u8], at: usize) -> (r: Option<(EncodedTerm, usize)>)
    ensures
        reading(r, term_at(bytes@, at as int)),
        r matches Some((term, next)) ==> at < next <= bytes@.len() && encoded_term_wf(term),
    decreases bytes@.len() - at,
{
    if at >= bytes.len() {
        return None;
    }
    let tag = bytes[at];
    if tag == TYPE_TRIPLE {
        let (subject, after_subject) = match read_term(bytes, at + 1) {
            Some(read) => read,
            None => { return None; },
        };
        let (predicate, after_predicate) = match read_term(bytes, after_subject) {
            Some(read) => read,
            None => { return None; },
        };
        let (object, after_object) = match read_term(bytes, after_predicate) {
            Some(read) => read,
            None => { return None; },
        };
        Some(
            (
                EncodedTerm::Triple(Box::new(EncodedTriple { subject, predicate, object })),
                after_object,
            ),
        )
    } else {
        read_payload(tag, bytes, at + 1)
    }
}

/// Where two texts stand one behind the other at a place, each of them
/// stands at its place.
proof fn lemma_split(bytes: Seq<u8>, at: int, a: Seq<u8>, b: Seq<u8>)
    requires
        0 <= at,
        at + a.len() + b.len() <= bytes.len(),
        bytes.subrange(at, at + a.len() + b.len()) == a + b,
    ensures
        bytes.subrange(at, at + a.len()) == a,
        bytes.subrange(at + a.len(), at + a.len() + b.len()) == b,
{
    let whole = bytes.subrange(at, at + a.len() + b.len());
    assert(bytes.subrange(at, at + a.len()) =~= a) by {
        assert forall|i: int| 0 <= i < a.len() implies bytes[at + i] == a[i] by {
            assert(whole[i] == (a + b)[i]);
        }
    }
    assert(bytes.subrange(at + a.len(), at + a.len() + b.len()) =~= b) by {
        assert forall|i: int| 0 <= i < b.len() implies bytes[at + a.len() + i] == b[i] by {
            assert(whole[a.len() + i] == (a + b)[a.len() + i]);
        }
    }
}

proof fn lemma_number_at(bytes: Seq<u8>, at: int, value: nat, width: nat)
    requires
        0 <= at,
        at + width <= bytes.len(),
        bytes.subrange(at, at + width) == be_bytes(value, width),
        value < pow256(width),
    ensures
        number_at(bytes, at, width as int) == Some(value),
{
    lemma_be_bytes(value, width);
    assert(value % pow256(width) == value) by (nonlinear_arith)
        requires
            value < pow256(width),
    ;
}

proof fn lemma_small_string_at(bytes: Seq<u8>, at: int, s: SmallString)
    requires
        0 <= at,
        at + 17 <= bytes.len(),
        bytes.subrange(at, at + 17) == s.layout(),
        s.wf(),
    ensures
        small_string_at(bytes, at) == Some(s),
{
    s.lemma_layout();
    let chosen = choose|c: SmallString| c.wf() && c.layout() == bytes.subrange(at, at + 17);
    chosen.lemma_layout_injective(s);
}

proof fn lemma_hash_at(bytes: Seq<u8>, at: int, hash: StrHash)
    requires
        0 <= at,
        at + 16 <= bytes.len(),
        bytes.subrange(at, at + 16) == hash_layout(hash),
    ensures
        hash_at(bytes, at) == Some(hash),
{
    lemma_pow256_values();
    lemma_number_at(bytes, at, hash.hash as nat, 16);
}

proof fn lemma_layout_lengths(s: SmallString, hash: StrHash)
    requires
        s.wf(),
    ensures
        s.layout().len() == 17,
        hash_layout(hash).len() == 16,
{
    s.lemma_layout();
    lemma_be_bytes(hash.hash as nat, 16);
}

proof fn lemma_date_time_at(bytes: Seq<u8>, at: int, fields: DateTimeFields)
    requires
        0 <= at,
        at + 31 <= bytes.len(),
        bytes.subrange(at, at + 31) == date_time_layout(fields),
    ensures
        date_time_at(bytes, at) == Some(fields),
{
    lemma_pow256_values();
    let year = be_bytes(unsigned_of_i64(fields.year), 8);
    let small = seq![fields.month, fields.day, fields.hour, fields.minute];
    let second = be_bytes(fields.second as nat, 16);
    let zone = match fields.timezone_offset {
        None => seq![0u8, 0u8, 0u8],
        Some(offset) => seq![1u8] + be_bytes(unsigned_of_i16(offset), 2),
    };
    lemma_be_bytes(unsigned_of_i64(fields.year), 8);
    lemma_be_bytes(fields.second as nat, 16);
    let layout = date_time_layout(fields);
    assert(layout == year + small + second + zone);
    match fields.timezone_offset {
        None => {
            lemma_be_bytes(0, 2);
            assert(be_bytes(0, 2) =~= seq![0u8, 0u8]) by {
                reveal_with_fuel(be_bytes, 3);
            }
        },
        Some(offset) => {
            lemma_be_bytes(unsigned_of_i16(offset), 2);
        },
    }
    assert(zone.len() == 3);
    let whole = bytes.subrange(at, at + 31);
    assert(bytes.subrange(at, at + 8) =~= year) by {
        assert forall|i: int| 0 <= i < 8 implies bytes[at + i] == year[i] by {
            assert(whole[i] == layout[i]);
        }
    }
    assert(bytes.subrange(at + 12, at + 28) =~= second) by {
        assert forall|i: int| 0 <= i < 16 implies bytes[at + 12 + i] == second[i] by {
            assert(whole[12 + i] == layout[12 + i]);
        }
    }
    assert(bytes[at + 8] == fields.month) by {
        assert(whole[8] == layout[8]);
    }
    assert(bytes[at + 9] == fields.day) by {
        assert(whole[9] == layout[9]);
    }
    assert(bytes[at + 10] == fields.hour) by {
        assert(whole[10] == layout[10]);
    }
    assert(bytes[at + 11] == fields.minute) by {
        assert(whole[11] == layout[11]);
    }
    assert(bytes[at + 28] == zone[0]) by {
        assert(whole[28] == layout[28]);
    }
    assert(bytes.subrange(at + 29, at + 31) =~= zone.subrange(1, 3)) by {
        assert(whole[29] == layout[29]);
        assert(whole[30] == layout[30]);
        assert(bytes[at + 29] == zone[1]);
        assert(bytes[at + 30] == zone[2]);
    }
    assert(unsigned_of_i64(fields.year) % pow256(8) == unsigned_of_i64(fields.year)) by (
    nonlinear_arith)
        requires
            unsigned_of_i64(fields.year) < pow256(8),
    ;
    assert((fields.second as nat) % pow256(16) == fields.second as nat) by (nonlinear_arith)
        requires
            (fields.second as nat) < pow256(16),
    ;
    match fields.timezone_offset {
        None => {
            assert(zone.subrange(1, 3) =~= be_bytes(0, 2));
            assert(0nat % pow256(2) == 0) by (nonlinear_arith)
                requires
                    pow256(2) > 0,
            ;
        },
        Some(offset) => {
            assert(zone.subrange(1, 3) =~= be_bytes(unsigned_of_i16(offset), 2));
            assert(unsigned_of_i16(offset) % pow256(2) == unsigned_of_i16(offset)) by (
            nonlinear_arith)
                requires
                    unsigned_of_i16(offset) < pow256(2),
            ;
        },
    }
}

proof fn lemma_duration_at(bytes: Seq<u8>, at: int, duration: Duration)
    requires
        0 <= at,
        at + 24 <= bytes.len(),
        bytes.subrange(at, at + 24) == duration_layout(duration),
    ensures
        duration_at(bytes, at) == Some(duration),
{
    lemma_pow256_values();
    let months = be_bytes(unsigned_of_i64(duration.months), 8);
    let seconds = be_bytes(unsigned_of_i128(duration.seconds), 16);
    lemma_be_bytes(unsigned_of_i64(duration.months), 8);
    lemma_be_bytes(unsigned_of_i128(duration.seconds), 16);
    lemma_split(bytes, at, months, seconds);
    assert(unsigned_of_i64(duration.months) % pow256(8) == unsigned_of_i64(duration.months)) by (
    nonlinear_arith)
        requires
            unsigned_of_i64(duration.months) < pow256(8),
    ;
    assert(unsigned_of_i128(duration.seconds) % pow256(16) == unsigned_of_i128(
        duration.seconds,
    )) by (nonlinear_arith)
        requires
            unsigned_of_i128(duration.seconds) < pow256(16),
    ;
}

/// How long the parts of a term that is no quoted triple are.
pub open spec fn payload_len(term: EncodedTerm) -> int {
    match term {
        EncodedTerm::DefaultGraph => 0,
        EncodedTerm::NamedNode { .. } => 16,
        EncodedTerm::NumericalBlankNode { .. } => 16,
        EncodedTerm::SmallBlankNode(_) => 17,
        EncodedTerm::BigBlankNode { .. } => 16,
        EncodedTerm::SmallStringLiteral(_) => 17,
        EncodedTerm::BigStringLiteral { .. } => 16,
        EncodedTerm::SmallSmallLangStringLiteral { .. } => 34,
        EncodedTerm::SmallBigLangStringLiteral { .. } => 33,
        EncodedTerm::BigSmallLangStringLiteral { .. } => 33,
        EncodedTerm::BigBigLangStringLiteral { .. } => 32,
        EncodedTerm::SmallTypedLiteral { .. } => 33,
        EncodedTerm::BigTypedLiteral { .. } => 32,
        EncodedTerm::BooleanLiteral(_) => 0,
        EncodedTerm::FloatLiteral(_) => 4,
        EncodedTerm::DoubleLiteral(_) => 8,
        EncodedTerm::IntegerLiteral(_) => 8,
        EncodedTerm::DecimalLiteral(_) => 16,
        EncodedTerm::DurationLiteral(_) => 24,
        EncodedTerm::YearMonthDurationLiteral(_) => 24,
        EncodedTerm::DayTimeDurationLiteral(_) => 24,
        EncodedTerm::Triple(_) => 0,
        _ => 31,
    }
}

/// The parts of a term have the width that its tag fixes.
pub proof fn lemma_payload_len(term: EncodedTerm)
    requires
        encoded_term_wf(term),
        !(term is Triple),
    ensures
        payload_bytes(term).len() == payload_len(term),
{
    lemma_be_bytes(0, 2);
    match term {
        EncodedTerm::NamedNode { iri_id } => lemma_be_bytes(iri_id.hash as nat, 16),
        EncodedTerm::NumericalBlankNode { id } => lemma_be_bytes(id as nat, 16),
        EncodedTerm::SmallBlankNode(id) => id.lemma_layout(),
        EncodedTerm::BigBlankNode { id_id } => lemma_be_bytes(id_id.hash as nat, 16),
        EncodedTerm::SmallStringLiteral(value) => value.lemma_layout(),
        EncodedTerm::BigStringLiteral { value_id } => lemma_be_bytes(value_id.hash as nat, 16),
        EncodedTerm::SmallSmallLangStringLiteral { value, language } => {
            value.lemma_layout();
            language.lemma_layout();
        },
        EncodedTerm::SmallBigLangStringLiteral { value, language_id } => {
            value.lemma_layout();
            lemma_be_bytes(language_id.hash as nat, 16);
        },
        EncodedTerm::BigSmallLangStringLiteral { value_id, language } => {
            language.lemma_layout();
            lemma_be_bytes(value_id.hash as nat, 16);
        },
        EncodedTerm::BigBigLangStringLiteral { value_id, language_id } => {
            lemma_be_bytes(value_id.hash as nat, 16);
            lemma_be_bytes(language_id.hash as nat, 16);
        },
        EncodedTerm::SmallTypedLiteral { value, datatype_id } => {
            value.lemma_layout();
            lemma_be_bytes(datatype_id.hash as nat, 16);
        },
        EncodedTerm::BigTypedLiteral { value_id, datatype_id } => {
            lemma_be_bytes(value_id.hash as nat, 16);
            lemma_be_bytes(datatype_id.hash as nat, 16);
        },
        EncodedTerm::FloatLiteral(bits) => lemma_be_bytes(bits as nat, 4),
        EncodedTerm::DoubleLiteral(bits) => lemma_be_bytes(bits as nat, 8),
        EncodedTerm::IntegerLiteral(value) => lemma_be_bytes(unsigned_of_i64(value), 8),
        EncodedTerm::DecimalLiteral(value) => lemma_be_bytes(unsigned_of_i128(value.value), 16),
        EncodedTerm::DurationLiteral(value) => lemma_duration_len(value),
        EncodedTerm::YearMonthDurationLiteral(value) => lemma_duration_len(value),
        EncodedTerm::DayTimeDurationLiteral(value) => lemma_duration_len(value),
        EncodedTerm::DateTimeLiteral(value) => lemma_date_time_len(value),
        EncodedTerm::TimeLiteral(value) => lemma_date_time_len(value),
        EncodedTerm::DateLiteral(value) => lemma_date_time_len(value),
        EncodedTerm::GYearMonthLiteral(value) => lemma_date_time_len(value),
        EncodedTerm::GYearLiteral(value) => lemma_date_time_len(value),
        EncodedTerm::GMonthDayLiteral(value) => lemma_date_time_len(value),
        EncodedTerm::GDayLiteral(value) => lemma_date_time_len(value),
        EncodedTerm::GMonthLiteral(value) => lemma_date_time_len(value),
        _ => {},
    }
}

proof fn lemma_duration_len(duration: Duration)
    ensures
        duration_layout(duration).len() == 24,
{
    lemma_be_bytes(unsigned_of_i64(duration.months), 8);
    lemma_be_bytes(unsigned_of_i128(duration.seconds), 16);
}

proof fn lemma_date_time_len(fields: DateTimeFields)
    ensures
        date_time_layout(fields).len() == 31,
{
    lemma_be_bytes(unsigned_of_i64(fields.year), 8);
    lemma_be_bytes(fields.second as nat, 16);
    match fields.timezone_offset {
        None => {},
        Some(offset) => lemma_be_bytes(unsigned_of_i16(offset), 2),
    }
}

/// Reading the parts of a term where they stand gives the term back.
pub proof fn lemma_payload_round_trip(term: EncodedTerm, bytes: Seq<u8>, at: int)
    requires
        encoded_term_wf(term),
        !(term is Triple),
        0 <= at,
        at + payload_len(term) <= bytes.len(),
        bytes.subrange(at, at + payload_len(term)) == payload_bytes(term),
    ensures
        payload_at(tag_of(term), bytes, at) == Some((term, at + payload_len(term))),
{
    lemma_pow256_values();
    lemma_payload_len(term);
    match term {
        EncodedTerm::NamedNode { iri_id } => lemma_hash_at(bytes, at, iri_id),
        EncodedTerm::NumericalBlankNode { id } => lemma_number_at(bytes, at, id as nat, 16),
        EncodedTerm::SmallBlankNode(id) => lemma_small_string_at(bytes, at, id),
        EncodedTerm::BigBlankNode { id_id } => lemma_hash_at(bytes, at, id_id),
        EncodedTerm::SmallStringLiteral(value) => lemma_small_string_at(bytes, at, value),
        EncodedTerm::BigStringLiteral { value_id } => lemma_hash_at(bytes, at, value_id),
        EncodedTerm::SmallSmallLangStringLiteral { value, language } => {
            value.lemma_layout();
            language.lemma_layout();
            lemma_split(bytes, at, language.layout(), value.layout());
            lemma_small_string_at(bytes, at, language);
            lemma_small_string_at(bytes, at + 17, value);
        },
        EncodedTerm::SmallBigLangStringLiteral { value, language_id } => {
            lemma_layout_lengths(value, language_id);
            lemma_split(bytes, at, hash_layout(language_id), value.layout());
            lemma_hash_at(bytes, at, language_id);
            lemma_small_string_at(bytes, at + 16, value);
        },
        EncodedTerm::BigSmallLangStringLiteral { value_id, language } => {
            lemma_layout_lengths(language, value_id);
            lemma_split(bytes, at, language.layout(), hash_layout(value_id));
            lemma_small_string_at(bytes, at, language);
            lemma_hash_at(bytes, at + 17, value_id);
        },
        EncodedTerm::BigBigLangStringLiteral { value_id, language_id } => {
            lemma_be_bytes(value_id.hash as nat, 16);
            lemma_be_bytes(language_id.hash as nat, 16);
            lemma_split(bytes, at, hash_layout(language_id), hash_layout(value_id));
            lemma_hash_at(bytes, at, language_id);
            lemma_hash_at(bytes, at + 16, value_id);
        },
        EncodedTerm::SmallTypedLiteral { value, datatype_id } => {
            lemma_layout_lengths(value, datatype_id);
            lemma_split(bytes, at, hash_layout(datatype_id), value.layout());
            lemma_hash_at(bytes, at, datatype_id);
            lemma_small_string_at(bytes, at + 16, value);
        },
        EncodedTerm::BigTypedLiteral { value_id, datatype_id } => {
            lemma_be_bytes(value_id.hash as nat, 16);
            lemma_be_bytes(datatype_id.hash as nat, 16);
            lemma_split(bytes, at, hash_layout(datatype_id), hash_layout(value_id));
            lemma_hash_at(bytes, at, datatype_id);
            lemma_hash_at(bytes, at + 16, value_id);
        },
        EncodedTerm::FloatLiteral(bits) => lemma_number_at(bytes, at, bits as nat, 4),
        EncodedTerm::DoubleLiteral(bits) => lemma_number_at(bytes, at, bits as nat, 8),
        EncodedTerm::IntegerLiteral(value) => lemma_number_at(
            bytes,
            at,
            unsigned_of_i64(value),
            8,
        ),
        EncodedTerm::DecimalLiteral(value) => lemma_number_at(
            bytes,
            at,
            unsigned_of_i128(value.value),
            16,
        ),
        EncodedTerm::DurationLiteral(value) => lemma_duration_at(bytes, at, value),
        EncodedTerm::YearMonthDurationLiteral(value) => lemma_duration_at(bytes, at, value),
        EncodedTerm::DayTimeDurationLiteral(value) => lemma_duration_at(bytes, at, value),
        EncodedTerm::DateTimeLiteral(value) => lemma_date_time_at(bytes, at, value),
        EncodedTerm::TimeLiteral(value) => lemma_date_time_at(bytes, at, value),
        EncodedTerm::DateLiteral(value) => lemma_date_time_at(bytes, at, value),
        EncodedTerm::GYearMonthLiteral(value) => lemma_date_time_at(bytes, at, value),
        EncodedTerm::GYearLiteral(value) => lemma_date_time_at(bytes, at, value),
        EncodedTerm::GMonthDayLiteral(value) => lemma_date_time_at(bytes, at, value),
        EncodedTerm::GDayLiteral(value) => lemma_date_time_at(bytes, at, value),
        EncodedTerm::GMonthLiteral(value) => lemma_date_time_at(bytes, at, value),
        _ => {},
    }
}

/// Reading the layout of a term where it stands gives the term back, with
/// the place behind the layout: whatever stands in front and behind.
pub proof fn lemma_term_round_trip(term: EncodedTerm, bytes: Seq<u8>, at: int)
    requires
        encoded_term_wf(term),
        0 <= at,
        at + term_bytes(term).len() <= bytes.len(),
        bytes.subrange(at, at + term_bytes(term).len()) == term_bytes(term),
    ensures
        term_bytes(term).len() >= 1,
        term_at(bytes, at) == Some((term, at + term_bytes(term).len())),
    decreases term,
{
    let layout = term_bytes(term);
    let whole = bytes.subrange(at, at + layout.len());
    match term {
        EncodedTerm::Triple(triple) => {
            let s = term_bytes(triple.subject);
            let p = term_bytes(triple.predicate);
            let o = term_bytes(triple.object);
            assert(layout == seq![48u8] + s + p + o);
            assert(bytes[at] == 48) by {
                assert(whole[0] == layout[0]);
            }
            assert(bytes.subrange(at + 1, at + 1 + s.len()) =~= s) by {
                assert forall|i: int| 0 <= i < s.len() implies bytes[at + 1 + i] == s[i] by {
                    assert(whole[1 + i] == layout[1 + i]);
                }
            }
            assert(bytes.subrange(at + 1 + s.len(), at + 1 + s.len() + p.len()) =~= p) by {
                assert forall|i: int| 0 <= i < p.len() implies bytes[at + 1 + s.len() + i]
                    == p[i] by {
                    assert(whole[1 + s.len() + i] == layout[1 + s.len() + i]);
                }
            }
            assert(bytes.subrange(
                at + 1 + s.len() + p.len(),
                at + 1 + s.len() + p.len() + o.len(),
            ) =~= o) by {
                assert forall|i: int| 0 <= i < o.len() implies bytes[at + 1 + s.len() + p.len()
                    + i] == o[i] by {
                    assert(whole[1 + s.len() + p.len() + i] == layout[1 + s.len() + p.len() + i]);
                }
            }
            lemma_term_round_trip(triple.subject, bytes, at + 1);
            lemma_term_round_trip(triple.predicate, bytes, at + 1 + s.len());
            lemma_term_round_trip(triple.object, bytes, at + 1 + s.len() + p.len());
        },
        _ => {
            lemma_payload_len(term);
            let payload = payload_bytes(term);
            assert(layout == seq![tag_of(term)] + payload);
            assert(bytes[at] == tag_of(term)) by {
                assert(whole[0] == layout[0]);
            }
            assert(bytes.subrange(at + 1, at + 1 + payload_len(term)) =~= payload) by {
                assert forall|i: int| 0 <= i < payload.len() implies bytes[at + 1 + i]
                    == payload[i] by {
                    assert(whole[1 + i] == layout[1 + i]);
                }
            }
            lemma_payload_round_trip(term, bytes, at + 1);
        },
    }
}

} // verus!

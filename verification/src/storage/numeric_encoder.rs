//! Encoded terms: the identifier of a text, the terms with their texts held
//! inline or by identifier and their numbers, dates and durations held by
//! value, the encoding of terms and the decoding over a table of texts.

use crate::model::blank_node::{blank_node_of_label, BlankNode, BlankNodeName, BlankNodeView};
use crate::model::literal::{typed_literal_of, Literal, LiteralForm, LiteralView};
use crate::model::named_node::NamedNode;
use crate::model::triple::{
    GraphName, GraphNameView, Quad, QuadView, Subject, SubjectView, Term, TermView, Triple,
    TripleView,
};
use crate::model::date_time::{
    date_time_of, date_time_text, format_date_time, parse_date_time, DateTimeFields, DateTimeKind,
};
use crate::model::decimal::{decimal_of, decimal_text, format_decimal, parse_decimal, Decimal};
use crate::model::duration::{
    duration_of, duration_text, format_duration, parse_duration, Duration, DurationKind,
};
use crate::model::vocab::{
    is_integer_datatype, names_integer_datatype, rdf_lang_string, xsd_boolean, xsd_date,
    xsd_date_time, xsd_date_time_stamp, xsd_day_time_duration, xsd_decimal, xsd_duration,
    xsd_g_day, xsd_g_month, xsd_g_month_day, xsd_g_year, xsd_g_year_month, xsd_integer,
    xsd_string, xsd_time, xsd_year_month_duration, RDF_LANG_STRING, XSD_BOOLEAN, XSD_DATE,
    XSD_DATE_TIME, XSD_DATE_TIME_STAMP, XSD_DAY_TIME_DURATION, XSD_DECIMAL, XSD_DURATION,
    XSD_G_DAY, XSD_G_MONTH, XSD_G_MONTH_DAY, XSD_G_YEAR, XSD_G_YEAR_MONTH, XSD_INTEGER,
    XSD_STRING, XSD_TIME, XSD_YEAR_MONTH_DURATION,
};
use crate::model::xsd::{
    boolean_of_text, boolean_text, format_boolean, format_integer, integer_of_text, integer_text,
    parse_boolean, parse_integer,
};
use crate::storage::small_string::{fits_inline, small_string_of, SmallString};
use crate::storage::string_store::{table_insert, table_remove, StrEntryView, StringStore};
use crate::model::lexical::{
    ascii_string, ascii_text, is_digit_byte, lemma_natural_bytes, natural_bytes, push_natural,
};
use crate::text::{copy_str, str_eq};
use vstd::prelude::*;
use vstd::std_specs::cmp::PartialEqSpecImpl;
use vstd::string::{StringExecFns, StringSliceAdditionalSpecFns};
use vstd::utf8::encode_utf8;

verus! {

/// The 128-bit identifier under which a string is interned.
#[derive(Clone, Copy, Debug, PartialEq, Eq, Structural, Hash)]
pub struct StrHash {
    pub hash: u128,
}

/// SipHash-2-4 with a 128-bit output and both keys zero, of a byte string.
pub uninterp spec fn sip_hash_128(bytes: Seq<u8>) -> u128;

/// 256 to the power `n`.
pub open spec fn pow256(n: nat) -> nat
    decreases n,
{
    if n == 0 {
        1
    } else {
        256 * pow256((n - 1) as nat)
    }
}

/// The number that a byte string denotes, most significant byte first.
pub open spec fn be_bytes_value(bytes: Seq<u8>) -> nat
    decreases bytes.len(),
{
    if bytes.len() == 0 {
        0
    } else {
        be_bytes_value(bytes.drop_last()) * 256 + bytes.last() as nat
    }
}

pub proof fn lemma_pow256_16()
    ensures
        pow256(16) == 0x1_0000_0000_0000_0000_0000_0000_0000_0000,
        pow256(15) == 0x100_0000_0000_0000_0000_0000_0000_0000,
{
    reveal_with_fuel(pow256, 17);
}

pub proof fn lemma_pow256_monotone(a: nat, b: nat)
    requires
        a <= b,
    ensures
        pow256(a) <= pow256(b),
        pow256(a) >= 1,
    decreases b,
{
    if a < b {
        lemma_pow256_monotone(a, (b - 1) as nat);
    } else if a > 0 {
        lemma_pow256_monotone((a - 1) as nat, (a - 1) as nat);
    }
}

/// A byte string of length `n` denotes a number below 256 to the `n`.
pub proof fn lemma_be_bytes_value_bound(bytes: Seq<u8>)
    ensures
        be_bytes_value(bytes) < pow256(bytes.len()),
    decreases bytes.len(),
{
    if bytes.len() > 0 {
        lemma_be_bytes_value_bound(bytes.drop_last());
    }
}

/// The value of a byte string with one more byte in front.
pub proof fn lemma_be_bytes_value_prepend(b: u8, bytes: Seq<u8>)
    ensures
        be_bytes_value(seq![b] + bytes) == b as nat * pow256(bytes.len()) + be_bytes_value(bytes),
    decreases bytes.len(),
{
    let whole = seq![b] + bytes;
    assert(whole.len() > 0);
    assert(be_bytes_value(whole) == be_bytes_value(whole.drop_last()) * 256 + whole.last() as nat);
    if bytes.len() == 0 {
        assert(whole.drop_last() =~= Seq::<u8>::empty());
        assert(be_bytes_value(whole.drop_last()) == 0);
        assert(whole.last() == b);
        assert(be_bytes_value(bytes) == 0);
        assert(b as nat * pow256(bytes.len()) == b as nat) by (nonlinear_arith)
            requires
                pow256(bytes.len()) == 1,
        ;
    } else {
        let front = bytes.drop_last();
        lemma_be_bytes_value_prepend(b, front);
        assert(whole.drop_last() =~= seq![b] + front);
        assert(whole.last() == bytes.last());
        assert(be_bytes_value(bytes) == be_bytes_value(front) * 256 + bytes.last() as nat);
        assert(pow256(bytes.len()) == 256 * pow256(front.len()));
        assert((b as nat * pow256(front.len()) + be_bytes_value(front)) * 256 == b as nat
            * pow256(bytes.len()) + be_bytes_value(front) * 256) by (nonlinear_arith)
            requires
                pow256(bytes.len()) == 256 * pow256(front.len()),
        ;
    }
}

/// Two byte strings of one length that denote the same number are equal.
pub proof fn lemma_be_bytes_value_injective(a: Seq<u8>, b: Seq<u8>)
    requires
        a.len() == b.len(),
        be_bytes_value(a) == be_bytes_value(b),
    ensures
        a == b,
    decreases a.len(),
{
    if a.len() > 0 {
        let x = be_bytes_value(a.drop_last());
        let y = be_bytes_value(b.drop_last());
        assert(x == y && a.last() == b.last()) by (nonlinear_arith)
            requires
                x * 256 + a.last() as nat == y * 256 + b.last() as nat,
                a.last() < 256,
                b.last() < 256,
        ;
        lemma_be_bytes_value_injective(a.drop_last(), b.drop_last());
        assert(a =~= a.drop_last().push(a.last()));
        assert(b =~= b.drop_last().push(b.last()));
    } else {
        assert(a =~= b);
    }
}

/// Calls `SipHasher24` of the `siphasher` crate: a hasher with both keys
/// zero is fed the bytes once and asked for its 128-bit digest.
#[verifier::external_body]
fn sip128(bytes: &[u8]) -> (r: u128)
    ensures
        r == sip_hash_128(bytes@),
{
    let mut hasher = siphasher::sip128::SipHasher24::new();
    std::hash::Hasher::write(&mut hasher, bytes);
    siphasher::sip128::Hasher128::finish128(&hasher).into()
}

impl StrHash {
    /// The identifier of a string: the digest of its UTF-8 bytes.
    pub fn new(value: &str) -> (r: Self)
        ensures
            r.hash == sip_hash_128(encode_utf8(value@)),
    {
        Self { hash: sip128(value.as_bytes()) }
    }

    /// Reads an identifier from its 16 bytes, most significant first.
    pub fn from_be_bytes(bytes: [u8; 16]) -> (r: Self)
        ensures
            r.hash as nat == be_bytes_value(bytes@),
    {
        let mut acc: u128 = 0;
        let mut i: usize = 0;
        while i < 16
            invariant
                i <= 16,
                acc as nat == be_bytes_value(bytes@.take(i as int)),
            decreases 16 - i,
        {
            proof {
                let next = bytes@.take(i as int + 1);
                assert(next.drop_last() =~= bytes@.take(i as int));
                assert(next.last() == bytes@[i as int]);
                lemma_be_bytes_value_bound(bytes@.take(i as int));
                lemma_pow256_monotone(i as nat, 15);
                lemma_pow256_16();
            }
            acc = acc * 256 + bytes[i] as u128;
            i += 1;
        }
        proof {
            assert(bytes@.take(16) =~= bytes@);
        }
        Self { hash: acc }
    }

    /// Writes the identifier as 16 bytes, most significant first.
    pub fn to_be_bytes(self) -> (r: [u8; 16])
        ensures
            be_bytes_value(r@) == self.hash as nat,
    {
        let mut out: [u8; 16] = [0u8; 16];
        let mut rest: u128 = self.hash;
        let mut i: usize = 16;
        proof {
            lemma_pow256_16();
            assert(out@.subrange(16, 16) =~= Seq::<u8>::empty());
            assert(be_bytes_value(out@.subrange(16, 16)) == 0);
            assert(rest as nat * pow256(0) == rest as nat) by (nonlinear_arith)
                requires
                    pow256(0) == 1,
            ;
        }
        while i > 0
            invariant
                i <= 16,
                (rest as nat) < pow256(i as nat),
                self.hash as nat == rest as nat * pow256((16 - i) as nat) + be_bytes_value(
                    out@.subrange(i as int, 16),
                ),
            decreases i,
        {
            let ghost before = out@.subrange(i as int, 16);
            let ghost old_rest = rest as nat;
            let low: u8 = (rest % 256) as u8;
            out[i - 1] = low;
            rest = rest / 256;
            proof {
                assert(out@.subrange(i as int - 1, 16) =~= seq![low] + before);
                lemma_be_bytes_value_prepend(low, before);
                let p = pow256((16 - i) as nat);
                assert(pow256((16 - i + 1) as nat) == 256 * p);
                assert(old_rest == rest as nat * 256 + low as nat);
                assert(old_rest * p == rest as nat * (256 * p) + low as nat * p)
                    by (nonlinear_arith)
                    requires
                        old_rest == rest as nat * 256 + low as nat,
                ;
                assert(pow256(i as nat) == 256 * pow256((i - 1) as nat));
            }
            i -= 1;
        }
        proof {
            assert(out@.subrange(0, 16) =~= out@);
        }
        out
    }
}

/// Reading the bytes that `to_be_bytes` wrote gives the identifier back, and
/// writing what `from_be_bytes` read gives the bytes back.
pub proof fn lemma_be_bytes_round_trip(hash: u128, bytes: [u8; 16])
    ensures
        be_bytes_value(bytes@) == hash as nat ==> forall|other: [u8; 16]|
            be_bytes_value(other@) == hash as nat ==> other == bytes,
{
    if be_bytes_value(bytes@) == hash as nat {
        assert forall|other: [u8; 16]| be_bytes_value(other@) == hash as nat implies other
            == bytes by {
            lemma_be_bytes_value_injective(other@, bytes@);
            assert(other@ =~= bytes@);
        }
    }
}

/// A term in its compact form: short texts and numbers are held inline,
/// long texts by the identifier under which they are interned.
#[derive(Debug, Eq, Hash)]
pub enum EncodedTerm {
    DefaultGraph,
    NamedNode { iri_id: StrHash },
    NumericalBlankNode { id: u128 },
    SmallBlankNode(SmallString),
    BigBlankNode { id_id: StrHash },
    SmallStringLiteral(SmallString),
    BigStringLiteral { value_id: StrHash },
    SmallSmallLangStringLiteral { value: SmallString, language: SmallString },
    SmallBigLangStringLiteral { value: SmallString, language_id: StrHash },
    BigSmallLangStringLiteral { value_id: StrHash, language: SmallString },
    BigBigLangStringLiteral { value_id: StrHash, language_id: StrHash },
    SmallTypedLiteral { value: SmallString, datatype_id: StrHash },
    BigTypedLiteral { value_id: StrHash, datatype_id: StrHash },
    BooleanLiteral(bool),
    /// An `xsd:float`, by the bits of its IEEE 754 value.
    FloatLiteral(u32),
    /// An `xsd:double`, by the bits of its IEEE 754 value.
    DoubleLiteral(u64),
    IntegerLiteral(i64),
    DecimalLiteral(Decimal),
    DateTimeLiteral(DateTimeFields),
    TimeLiteral(DateTimeFields),
    DateLiteral(DateTimeFields),
    GYearMonthLiteral(DateTimeFields),
    GYearLiteral(DateTimeFields),
    GMonthDayLiteral(DateTimeFields),
    GDayLiteral(DateTimeFields),
    GMonthLiteral(DateTimeFields),
    DurationLiteral(Duration),
    YearMonthDurationLiteral(Duration),
    DayTimeDurationLiteral(Duration),
    Triple(Box<EncodedTriple>),
}

/// A triple of encoded terms.
#[derive(Debug, Eq, Hash)]
pub struct EncodedTriple {
    pub subject: EncodedTerm,
    pub predicate: EncodedTerm,
    pub object: EncodedTerm,
}

/// A quad of encoded terms.
#[derive(Debug, Eq, Hash)]
pub struct EncodedQuad {
    pub subject: EncodedTerm,
    pub predicate: EncodedTerm,
    pub object: EncodedTerm,
    pub graph_name: EncodedTerm,
}

/// Whether the bits are those of a single-precision NaN.
pub open spec fn is_nan_float_bits(bits: u32) -> bool {
    (bits & 0x7f80_0000u32) == 0x7f80_0000u32 && (bits & 0x007f_ffffu32) != 0u32
}

/// Whether the bits are those of a double-precision NaN.
pub open spec fn is_nan_double_bits(bits: u64) -> bool {
    (bits & 0x7ff0_0000_0000_0000u64) == 0x7ff0_0000_0000_0000u64 && (bits
        & 0x000f_ffff_ffff_ffffu64) != 0u64
}

/// Equality of two single-precision numbers by IEEE 754, but that a NaN
/// equals every NaN: the two zeros are equal, other numbers are equal where
/// their bits are.
pub open spec fn same_float_bits(a: u32, b: u32) -> bool {
    if is_nan_float_bits(a) {
        is_nan_float_bits(b)
    } else {
        !is_nan_float_bits(b) && (a == b || ((a & 0x7fff_ffffu32) == 0u32 && (b & 0x7fff_ffffu32)
            == 0u32))
    }
}

/// Equality of two double-precision numbers by IEEE 754, but that a NaN
/// equals every NaN.
pub open spec fn same_double_bits(a: u64, b: u64) -> bool {
    if is_nan_double_bits(a) {
        is_nan_double_bits(b)
    } else {
        !is_nan_double_bits(b) && (a == b || ((a & 0x7fff_ffff_ffff_ffffu64) == 0u64 && (b
            & 0x7fff_ffff_ffff_ffffu64) == 0u64))
    }
}

/// Equality of encoded terms: that of their parts, with numbers compared by
/// value.
pub open spec fn same_encoded_term(a: EncodedTerm, b: EncodedTerm) -> bool
    decreases a,
{
    match (a, b) {
        (EncodedTerm::FloatLiteral(x), EncodedTerm::FloatLiteral(y)) => same_float_bits(x, y),
        (EncodedTerm::DoubleLiteral(x), EncodedTerm::DoubleLiteral(y)) => same_double_bits(x, y),
        (EncodedTerm::Triple(x), EncodedTerm::Triple(y)) => same_encoded_triple(*x, *y),
        (EncodedTerm::FloatLiteral(_), _) => false,
        (EncodedTerm::DoubleLiteral(_), _) => false,
        (EncodedTerm::Triple(_), _) => false,
        _ => a == b,
    }
}

pub open spec fn same_encoded_triple(a: EncodedTriple, b: EncodedTriple) -> bool
    decreases a,
{
    &&& same_encoded_term(a.subject, b.subject)
    &&& same_encoded_term(a.predicate, b.predicate)
    &&& same_encoded_term(a.object, b.object)
}

pub open spec fn same_encoded_quad(a: EncodedQuad, b: EncodedQuad) -> bool {
    &&& same_encoded_term(a.subject, b.subject)
    &&& same_encoded_term(a.predicate, b.predicate)
    &&& same_encoded_term(a.object, b.object)
    &&& same_encoded_term(a.graph_name, b.graph_name)
}

/// Every inline string in the term is well formed.
pub open spec fn encoded_term_wf(term: EncodedTerm) -> bool
    decreases term,
{
    match term {
        EncodedTerm::SmallBlankNode(id) => id.wf(),
        EncodedTerm::SmallStringLiteral(value) => value.wf(),
        EncodedTerm::SmallSmallLangStringLiteral { value, language } => value.wf()
            && language.wf(),
        EncodedTerm::SmallBigLangStringLiteral { value, .. } => value.wf(),
        EncodedTerm::BigSmallLangStringLiteral { language, .. } => language.wf(),
        EncodedTerm::SmallTypedLiteral { value, .. } => value.wf(),
        EncodedTerm::Triple(triple) => encoded_term_wf(triple.subject) && encoded_term_wf(
            triple.predicate,
        ) && encoded_term_wf(triple.object),
        _ => true,
    }
}

fn float_bits_equal(a: u32, b: u32) -> (r: bool)
    ensures
        r == same_float_bits(a, b),
{
    let a_nan = (a & 0x7f80_0000u32) == 0x7f80_0000u32 && (a & 0x007f_ffffu32) != 0u32;
    let b_nan = (b & 0x7f80_0000u32) == 0x7f80_0000u32 && (b & 0x007f_ffffu32) != 0u32;
    if a_nan {
        b_nan
    } else {
        !b_nan && (a == b || ((a & 0x7fff_ffffu32) == 0u32 && (b & 0x7fff_ffffu32) == 0u32))
    }
}

fn double_bits_equal(a: u64, b: u64) -> (r: bool)
    ensures
        r == same_double_bits(a, b),
{
    let a_nan = (a & 0x7ff0_0000_0000_0000u64) == 0x7ff0_0000_0000_0000u64 && (a
        & 0x000f_ffff_ffff_ffffu64) != 0u64;
    let b_nan = (b & 0x7ff0_0000_0000_0000u64) == 0x7ff0_0000_0000_0000u64 && (b
        & 0x000f_ffff_ffff_ffffu64) != 0u64;
    if a_nan {
        b_nan
    } else {
        !b_nan && (a == b || ((a & 0x7fff_ffff_ffff_ffffu64) == 0u64 && (b
            & 0x7fff_ffff_ffff_ffffu64) == 0u64))
    }
}

impl EncodedTerm {
    pub open spec fn wf(self) -> bool {
        encoded_term_wf(self)
    }

    /// Whether two encoded terms are equal.
    pub fn same(&self, other: &Self) -> (r: bool)
        ensures
            r == same_encoded_term(*self, *other),
        decreases *self,
    {
        match (self, other) {
            (Self::DefaultGraph, Self::DefaultGraph) => true,
            (Self::NamedNode { iri_id: a }, Self::NamedNode { iri_id: b }) => a.hash == b.hash,
            (Self::NumericalBlankNode { id: a }, Self::NumericalBlankNode { id: b }) => *a == *b,
            (Self::SmallBlankNode(a), Self::SmallBlankNode(b)) => {
                small_strings_equal(a, b)
            },
            (Self::BigBlankNode { id_id: a }, Self::BigBlankNode { id_id: b }) => a.hash
                == b.hash,
            (Self::SmallStringLiteral(a), Self::SmallStringLiteral(b)) => small_strings_equal(
                a,
                b,
            ),
            (Self::BigStringLiteral { value_id: a }, Self::BigStringLiteral { value_id: b }) => {
                a.hash == b.hash
            },
            (
                Self::SmallSmallLangStringLiteral { value: a, language: x },
                Self::SmallSmallLangStringLiteral { value: b, language: y },
            ) => small_strings_equal(a, b) && small_strings_equal(x, y),
            (
                Self::SmallBigLangStringLiteral { value: a, language_id: x },
                Self::SmallBigLangStringLiteral { value: b, language_id: y },
            ) => small_strings_equal(a, b) && x.hash == y.hash,
            (
                Self::BigSmallLangStringLiteral { value_id: a, language: x },
                Self::BigSmallLangStringLiteral { value_id: b, language: y },
            ) => a.hash == b.hash && small_strings_equal(x, y),
            (
                Self::BigBigLangStringLiteral { value_id: a, language_id: x },
                Self::BigBigLangStringLiteral { value_id: b, language_id: y },
            ) => a.hash == b.hash && x.hash == y.hash,
            (
                Self::SmallTypedLiteral { value: a, datatype_id: x },
                Self::SmallTypedLiteral { value: b, datatype_id: y },
            ) => small_strings_equal(a, b) && x.hash == y.hash,
            (
                Self::BigTypedLiteral { value_id: a, datatype_id: x },
                Self::BigTypedLiteral { value_id: b, datatype_id: y },
            ) => a.hash == b.hash && x.hash == y.hash,
            (Self::BooleanLiteral(a), Self::BooleanLiteral(b)) => *a == *b,
            (Self::FloatLiteral(a), Self::FloatLiteral(b)) => float_bits_equal(*a, *b),
            (Self::DoubleLiteral(a), Self::DoubleLiteral(b)) => double_bits_equal(*a, *b),
            (Self::IntegerLiteral(a), Self::IntegerLiteral(b)) => *a == *b,
            (Self::DecimalLiteral(a), Self::DecimalLiteral(b)) => a.value == b.value,
            (Self::DateTimeLiteral(a), Self::DateTimeLiteral(b)) => a.is_identical_with(b),
            (Self::TimeLiteral(a), Self::TimeLiteral(b)) => a.is_identical_with(b),
            (Self::DateLiteral(a), Self::DateLiteral(b)) => a.is_identical_with(b),
            (Self::GYearMonthLiteral(a), Self::GYearMonthLiteral(b)) => a.is_identical_with(b),
            (Self::GYearLiteral(a), Self::GYearLiteral(b)) => a.is_identical_with(b),
            (Self::GMonthDayLiteral(a), Self::GMonthDayLiteral(b)) => a.is_identical_with(b),
            (Self::GDayLiteral(a), Self::GDayLiteral(b)) => a.is_identical_with(b),
            (Self::GMonthLiteral(a), Self::GMonthLiteral(b)) => a.is_identical_with(b),
            (Self::DurationLiteral(a), Self::DurationLiteral(b)) => a.months == b.months
                && a.seconds == b.seconds,
            (Self::YearMonthDurationLiteral(a), Self::YearMonthDurationLiteral(b)) => a.months
                == b.months && a.seconds == b.seconds,
            (Self::DayTimeDurationLiteral(a), Self::DayTimeDurationLiteral(b)) => a.months
                == b.months && a.seconds == b.seconds,
            (Self::Triple(a), Self::Triple(b)) => a.same(b),
            (_, _) => false,
        }
    }

    /// Whether two encoded terms are the same value, bit for bit: the
    /// equality of the keys of the store.
    pub fn identical(&self, other: &Self) -> (r: bool)
        ensures
            r == (*self == *other),
        decreases *self,
    {
        match (self, other) {
            (Self::FloatLiteral(a), Self::FloatLiteral(b)) => *a == *b,
            (Self::DoubleLiteral(a), Self::DoubleLiteral(b)) => *a == *b,
            (Self::Triple(a), Self::Triple(b)) => a.identical(b),
            (Self::FloatLiteral(_), _) => false,
            (Self::DoubleLiteral(_), _) => false,
            (Self::Triple(_), _) => false,
            (_, Self::FloatLiteral(_)) => false,
            (_, Self::DoubleLiteral(_)) => false,
            (_, Self::Triple(_)) => false,
            _ => self.same(other),
        }
    }

    /// A copy of the term.
    pub fn duplicate(&self) -> (r: Self)
        ensures
            r == *self,
        decreases *self,
    {
        match self {
            Self::DefaultGraph => Self::DefaultGraph,
            Self::NamedNode { iri_id } => Self::NamedNode { iri_id: *iri_id },
            Self::NumericalBlankNode { id } => Self::NumericalBlankNode { id: *id },
            Self::SmallBlankNode(id) => Self::SmallBlankNode(*id),
            Self::BigBlankNode { id_id } => Self::BigBlankNode { id_id: *id_id },
            Self::SmallStringLiteral(value) => Self::SmallStringLiteral(*value),
            Self::BigStringLiteral { value_id } => Self::BigStringLiteral { value_id: *value_id },
            Self::SmallSmallLangStringLiteral { value, language } => {
                Self::SmallSmallLangStringLiteral { value: *value, language: *language }
            },
            Self::SmallBigLangStringLiteral { value, language_id } => {
                Self::SmallBigLangStringLiteral { value: *value, language_id: *language_id }
            },
            Self::BigSmallLangStringLiteral { value_id, language } => {
                Self::BigSmallLangStringLiteral { value_id: *value_id, language: *language }
            },
            Self::BigBigLangStringLiteral { value_id, language_id } => {
                Self::BigBigLangStringLiteral { value_id: *value_id, language_id: *language_id }
            },
            Self::SmallTypedLiteral { value, datatype_id } => Self::SmallTypedLiteral {
                value: *value,
                datatype_id: *datatype_id,
            },
            Self::BigTypedLiteral { value_id, datatype_id } => Self::BigTypedLiteral {
                value_id: *value_id,
                datatype_id: *datatype_id,
            },
            Self::BooleanLiteral(value) => Self::BooleanLiteral(*value),
            Self::FloatLiteral(value) => Self::FloatLiteral(*value),
            Self::DoubleLiteral(value) => Self::DoubleLiteral(*value),
            Self::IntegerLiteral(value) => Self::IntegerLiteral(*value),
            Self::DecimalLiteral(value) => Self::DecimalLiteral(*value),
            Self::DateTimeLiteral(value) => Self::DateTimeLiteral(*value),
            Self::TimeLiteral(value) => Self::TimeLiteral(*value),
            Self::DateLiteral(value) => Self::DateLiteral(*value),
            Self::GYearMonthLiteral(value) => Self::GYearMonthLiteral(*value),
            Self::GYearLiteral(value) => Self::GYearLiteral(*value),
            Self::GMonthDayLiteral(value) => Self::GMonthDayLiteral(*value),
            Self::GDayLiteral(value) => Self::GDayLiteral(*value),
            Self::GMonthLiteral(value) => Self::GMonthLiteral(*value),
            Self::DurationLiteral(value) => Self::DurationLiteral(*value),
            Self::YearMonthDurationLiteral(value) => Self::YearMonthDurationLiteral(*value),
            Self::DayTimeDurationLiteral(value) => Self::DayTimeDurationLiteral(*value),
            Self::Triple(triple) => Self::Triple(Box::new(triple.duplicate())),
        }
    }

    pub fn is_named_node(&self) -> (r: bool)
        ensures
            r == (*self is NamedNode),
    {
        matches!(self, Self::NamedNode { .. })
    }

    pub fn is_blank_node(&self) -> (r: bool)
        ensures
            r == (*self is NumericalBlankNode || *self is SmallBlankNode || *self
                is BigBlankNode),
    {
        matches!(
            self,
            Self::NumericalBlankNode { .. } | Self::SmallBlankNode(_) | Self::BigBlankNode { .. }
        )
    }

    pub fn is_literal(&self) -> (r: bool)
        ensures
            r == !(*self is DefaultGraph || *self is NamedNode || *self is NumericalBlankNode
                || *self is SmallBlankNode || *self is BigBlankNode || *self is Triple),
    {
        matches!(
            self,
            Self::SmallStringLiteral(_) | Self::BigStringLiteral { .. }
                | Self::SmallSmallLangStringLiteral { .. } | Self::SmallBigLangStringLiteral { .. }
                | Self::BigSmallLangStringLiteral { .. } | Self::BigBigLangStringLiteral { .. }
                | Self::SmallTypedLiteral { .. } | Self::BigTypedLiteral { .. }
                | Self::BooleanLiteral(_) | Self::FloatLiteral(_) | Self::DoubleLiteral(_)
                | Self::IntegerLiteral(_) | Self::DecimalLiteral(_) | Self::DateTimeLiteral(_)
                | Self::TimeLiteral(_) | Self::DateLiteral(_) | Self::GYearMonthLiteral(_)
                | Self::GYearLiteral(_) | Self::GMonthDayLiteral(_) | Self::GDayLiteral(_)
                | Self::GMonthLiteral(_) | Self::DurationLiteral(_)
                | Self::YearMonthDurationLiteral(_) | Self::DayTimeDurationLiteral(_)
        )
    }

    pub fn is_unknown_typed_literal(&self) -> (r: bool)
        ensures
            r == (*self is SmallTypedLiteral || *self is BigTypedLiteral),
    {
        matches!(self, Self::SmallTypedLiteral { .. } | Self::BigTypedLiteral { .. })
    }

    pub fn is_default_graph(&self) -> (r: bool)
        ensures
            r == (*self is DefaultGraph),
    {
        matches!(self, Self::DefaultGraph)
    }

    pub fn is_triple(&self) -> (r: bool)
        ensures
            r == (*self is Triple),
    {
        matches!(self, Self::Triple(_))
    }
}

fn small_strings_equal(a: &SmallString, b: &SmallString) -> (r: bool)
    ensures
        r == (*a == *b),
{
    proof {
        use_type_invariant(a);
        use_type_invariant(b);
        if a@ == b@ {
            crate::storage::small_string::lemma_small_string_equal(*a, *b);
        }
    }
    *a == *b
}

impl PartialEq for EncodedTerm {
    fn eq(&self, other: &Self) -> (r: bool) {
        self.same(other)
    }
}

impl PartialEqSpecImpl for EncodedTerm {
    open spec fn obeys_eq_spec() -> bool {
        true
    }

    open spec fn eq_spec(&self, other: &Self) -> bool {
        same_encoded_term(*self, *other)
    }
}

impl Clone for EncodedTerm {
    fn clone(&self) -> (r: Self)
        ensures
            r == *self,
    {
        self.duplicate()
    }
}

impl EncodedTriple {
    pub fn new(subject: EncodedTerm, predicate: EncodedTerm, object: EncodedTerm) -> (r: Self)
        ensures
            r == (EncodedTriple { subject, predicate, object }),
    {
        Self { subject, predicate, object }
    }

    /// Whether two encoded triples are equal.
    pub fn same(&self, other: &Self) -> (r: bool)
        ensures
            r == same_encoded_triple(*self, *other),
        decreases *self,
    {
        self.subject.same(&other.subject) && self.predicate.same(&other.predicate)
            && self.object.same(&other.object)
    }

    /// Whether two encoded triples are the same value, bit for bit.
    pub fn identical(&self, other: &Self) -> (r: bool)
        ensures
            r == (*self == *other),
        decreases *self,
    {
        self.subject.identical(&other.subject) && self.predicate.identical(&other.predicate)
            && self.object.identical(&other.object)
    }

    /// A copy of the triple.
    pub fn duplicate(&self) -> (r: Self)
        ensures
            r == *self,
        decreases *self,
    {
        Self {
            subject: self.subject.duplicate(),
            predicate: self.predicate.duplicate(),
            object: self.object.duplicate(),
        }
    }
}

impl PartialEq for EncodedTriple {
    fn eq(&self, other: &Self) -> (r: bool) {
        self.same(other)
    }
}

impl PartialEqSpecImpl for EncodedTriple {
    open spec fn obeys_eq_spec() -> bool {
        true
    }

    open spec fn eq_spec(&self, other: &Self) -> bool {
        same_encoded_triple(*self, *other)
    }
}

impl Clone for EncodedTriple {
    fn clone(&self) -> (r: Self)
        ensures
            r == *self,
    {
        self.duplicate()
    }
}

impl EncodedQuad {
    pub fn new(
        subject: EncodedTerm,
        predicate: EncodedTerm,
        object: EncodedTerm,
        graph_name: EncodedTerm,
    ) -> (r: Self)
        ensures
            r == (EncodedQuad { subject, predicate, object, graph_name }),
    {
        Self { subject, predicate, object, graph_name }
    }

    pub open spec fn wf(self) -> bool {
        &&& encoded_term_wf(self.subject)
        &&& encoded_term_wf(self.predicate)
        &&& encoded_term_wf(self.object)
        &&& encoded_term_wf(self.graph_name)
    }

    /// Whether two encoded quads are equal.
    pub fn same(&self, other: &Self) -> (r: bool)
        ensures
            r == same_encoded_quad(*self, *other),
    {
        self.subject.same(&other.subject) && self.predicate.same(&other.predicate)
            && self.object.same(&other.object) && self.graph_name.same(&other.graph_name)
    }

    /// Whether two encoded quads are the same value, bit for bit.
    pub fn identical(&self, other: &Self) -> (r: bool)
        ensures
            r == (*self == *other),
    {
        self.subject.identical(&other.subject) && self.predicate.identical(&other.predicate)
            && self.object.identical(&other.object) && self.graph_name.identical(
            &other.graph_name,
        )
    }

    /// A copy of the quad.
    pub fn duplicate(&self) -> (r: Self)
        ensures
            r == *self,
    {
        Self {
            subject: self.subject.duplicate(),
            predicate: self.predicate.duplicate(),
            object: self.object.duplicate(),
            graph_name: self.graph_name.duplicate(),
        }
    }
}

impl PartialEq for EncodedQuad {
    fn eq(&self, other: &Self) -> (r: bool) {
        self.same(other)
    }
}

impl PartialEqSpecImpl for EncodedQuad {
    open spec fn obeys_eq_spec() -> bool {
        true
    }

    open spec fn eq_spec(&self, other: &Self) -> bool {
        same_encoded_quad(*self, *other)
    }
}

impl Clone for EncodedQuad {
    fn clone(&self) -> (r: Self)
        ensures
            r == *self,
    {
        self.duplicate()
    }
}

/// The identifier of a text.
pub open spec fn str_hash_of(text: Seq<char>) -> StrHash {
    StrHash { hash: sip_hash_128(encode_utf8(text)) }
}

/// The encoding of an IRI.
pub open spec fn encoded_named_node(iri: Seq<char>) -> EncodedTerm {
    EncodedTerm::NamedNode { iri_id: str_hash_of(iri) }
}

/// The encoding of a blank node: its number, or its label, inline where it
/// fits.
pub open spec fn encoded_blank_node(node: BlankNodeView) -> EncodedTerm {
    match node {
        BlankNodeView::Anonymous(id) => EncodedTerm::NumericalBlankNode { id },
        BlankNodeView::Named(label) => if fits_inline(label) {
            EncodedTerm::SmallBlankNode(small_string_of(label))
        } else {
            EncodedTerm::BigBlankNode { id_id: str_hash_of(label) }
        },
    }
}

/// The encoding of a text of type `xsd:string`.
pub open spec fn encoded_string(value: Seq<char>) -> EncodedTerm {
    if fits_inline(value) {
        EncodedTerm::SmallStringLiteral(small_string_of(value))
    } else {
        EncodedTerm::BigStringLiteral { value_id: str_hash_of(value) }
    }
}

/// The encoding of a text with a language tag: one of four forms, by
/// whether the text and the tag fit inline.
pub open spec fn encoded_lang_string(value: Seq<char>, language: Seq<char>) -> EncodedTerm {
    if fits_inline(value) {
        if fits_inline(language) {
            EncodedTerm::SmallSmallLangStringLiteral {
                value: small_string_of(value),
                language: small_string_of(language),
            }
        } else {
            EncodedTerm::SmallBigLangStringLiteral {
                value: small_string_of(value),
                language_id: str_hash_of(language),
            }
        }
    } else if fits_inline(language) {
        EncodedTerm::BigSmallLangStringLiteral {
            value_id: str_hash_of(value),
            language: small_string_of(language),
        }
    } else {
        EncodedTerm::BigBigLangStringLiteral {
            value_id: str_hash_of(value),
            language_id: str_hash_of(language),
        }
    }
}

/// The encoding of a text with a datatype that has no native form.
pub open spec fn encoded_typed(value: Seq<char>, datatype: Seq<char>) -> EncodedTerm {
    if fits_inline(value) {
        EncodedTerm::SmallTypedLiteral {
            value: small_string_of(value),
            datatype_id: str_hash_of(datatype),
        }
    } else {
        EncodedTerm::BigTypedLiteral {
            value_id: str_hash_of(value),
            datatype_id: str_hash_of(datatype),
        }
    }
}

/// The native encoding of an `xsd:boolean`, where the text is one.
pub open spec fn encoded_boolean(value: Seq<char>) -> Option<EncodedTerm> {
    match boolean_of_text(value) {
        Some(b) => Some(EncodedTerm::BooleanLiteral(b)),
        None => None,
    }
}

/// The native encoding of an integer, where the text is one of 64 bits.
pub open spec fn encoded_integer(value: Seq<char>) -> Option<EncodedTerm> {
    match integer_of_text(value) {
        Some(i) => Some(EncodedTerm::IntegerLiteral(i)),
        None => None,
    }
}

/// The native encoding of a decimal, where the text is one.
pub open spec fn encoded_decimal(value: Seq<char>) -> Option<EncodedTerm> {
    match decimal_of(encode_utf8(value)) {
        Some(d) => Some(EncodedTerm::DecimalLiteral(d)),
        None => None,
    }
}

/// The encoded term that holds a value of one of the types of dates and
/// times.
pub open spec fn date_time_term(kind: DateTimeKind, fields: DateTimeFields) -> EncodedTerm {
    match kind {
        DateTimeKind::DateTime => EncodedTerm::DateTimeLiteral(fields),
        DateTimeKind::Time => EncodedTerm::TimeLiteral(fields),
        DateTimeKind::Date => EncodedTerm::DateLiteral(fields),
        DateTimeKind::GYearMonth => EncodedTerm::GYearMonthLiteral(fields),
        DateTimeKind::GYear => EncodedTerm::GYearLiteral(fields),
        DateTimeKind::GMonthDay => EncodedTerm::GMonthDayLiteral(fields),
        DateTimeKind::GDay => EncodedTerm::GDayLiteral(fields),
        DateTimeKind::GMonth => EncodedTerm::GMonthLiteral(fields),
    }
}

/// The native encoding of a value of one of the types of dates and times,
/// where the text is one.
pub open spec fn encoded_date_time(kind: DateTimeKind, value: Seq<char>) -> Option<EncodedTerm> {
    match date_time_of(kind, encode_utf8(value)) {
        Some(fields) => Some(date_time_term(kind, fields)),
        None => None,
    }
}

/// The encoded term that holds a duration of one of the three types.
pub open spec fn duration_term(kind: DurationKind, duration: Duration) -> EncodedTerm {
    match kind {
        DurationKind::Duration => EncodedTerm::DurationLiteral(duration),
        DurationKind::YearMonthDuration => EncodedTerm::YearMonthDurationLiteral(duration),
        DurationKind::DayTimeDuration => EncodedTerm::DayTimeDurationLiteral(duration),
    }
}

/// The native encoding of a duration of one of the three types, where the
/// text is one.
pub open spec fn encoded_duration(kind: DurationKind, value: Seq<char>) -> Option<EncodedTerm> {
    match duration_of(kind, encode_utf8(value)) {
        Some(duration) => Some(duration_term(kind, duration)),
        None => None,
    }
}

/// The native encoding of a literal, where its datatype has one and its
/// text is in the lexical space of that datatype.
pub open spec fn native_encoding(literal: LiteralView) -> Option<EncodedTerm> {
    match literal {
        LiteralView::Float { bits } => Some(EncodedTerm::FloatLiteral(bits)),
        LiteralView::Double { bits } => Some(EncodedTerm::DoubleLiteral(bits)),
        _ => {
            let value = literal.value();
            let datatype = literal.datatype();
            if datatype == rdf_lang_string() {
                match literal.language() {
                    Some(language) => Some(encoded_lang_string(value, language)),
                    None => None,
                }
            } else if datatype == xsd_boolean() {
                encoded_boolean(value)
            } else if datatype == xsd_string() {
                Some(encoded_string(value))
            } else {
                typed_native_encoding(value, datatype)
            }
        },
    }
}

/// The native encoding of a text with a datatype of numbers, dates, times
/// or durations, where the text is in the lexical space of the datatype.
#[verifier::opaque]
pub open spec fn typed_native_encoding(value: Seq<char>, datatype: Seq<char>) -> Option<
    EncodedTerm,
> {
    if is_integer_datatype(datatype) {
        encoded_integer(value)
    } else if datatype == xsd_decimal() {
        encoded_decimal(value)
    } else if datatype == xsd_date_time() || datatype == xsd_date_time_stamp() {
        encoded_date_time(DateTimeKind::DateTime, value)
    } else if datatype == xsd_time() {
        encoded_date_time(DateTimeKind::Time, value)
    } else if datatype == xsd_date() {
        encoded_date_time(DateTimeKind::Date, value)
    } else if datatype == xsd_g_year_month() {
        encoded_date_time(DateTimeKind::GYearMonth, value)
    } else if datatype == xsd_g_year() {
        encoded_date_time(DateTimeKind::GYear, value)
    } else if datatype == xsd_g_month_day() {
        encoded_date_time(DateTimeKind::GMonthDay, value)
    } else if datatype == xsd_g_day() {
        encoded_date_time(DateTimeKind::GDay, value)
    } else if datatype == xsd_g_month() {
        encoded_date_time(DateTimeKind::GMonth, value)
    } else if datatype == xsd_duration() {
        encoded_duration(DurationKind::Duration, value)
    } else if datatype == xsd_year_month_duration() {
        encoded_duration(DurationKind::YearMonthDuration, value)
    } else if datatype == xsd_day_time_duration() {
        encoded_duration(DurationKind::DayTimeDuration, value)
    } else {
        None
    }
}

/// Whether an encoded term holds a value natively: a boolean, a number, a
/// date, a time or a duration.
pub open spec fn is_native(encoded: EncodedTerm) -> bool {
    native_literal(encoded) is Some
}

proof fn lemma_date_time_term_is_native(kind: DateTimeKind, fields: DateTimeFields)
    ensures
        is_native(date_time_term(kind, fields)),
        encoded_hashes(date_time_term(kind, fields)) == Seq::<u128>::empty(),
{
}

proof fn lemma_duration_term_is_native(kind: DurationKind, duration: Duration)
    ensures
        is_native(duration_term(kind, duration)),
        encoded_hashes(duration_term(kind, duration)) == Seq::<u128>::empty(),
{
}

/// A native encoding of a text with a datatype holds a value natively.
pub proof fn lemma_typed_native_encoding(value: Seq<char>, datatype: Seq<char>)
    ensures
        typed_native_encoding(value, datatype) matches Some(encoded) ==> is_native(encoded)
            && encoded_hashes(encoded) == Seq::<u128>::empty(),
{
    reveal(typed_native_encoding);
    let bytes = encode_utf8(value);
    assert forall|kind: DateTimeKind| #[trigger]
        encoded_date_time(kind, value) matches Some(encoded) ==> is_native(encoded)
            && encoded_hashes(encoded) == Seq::<u128>::empty() by {
        if date_time_of(kind, bytes) is Some {
            lemma_date_time_term_is_native(kind, date_time_of(kind, bytes)->Some_0);
        }
    }
    assert forall|kind: DurationKind| #[trigger]
        encoded_duration(kind, value) matches Some(encoded) ==> is_native(encoded)
            && encoded_hashes(encoded) == Seq::<u128>::empty() by {
        if duration_of(kind, bytes) is Some {
            lemma_duration_term_is_native(kind, duration_of(kind, bytes)->Some_0);
        }
    }
    assert(encoded_integer(value) matches Some(encoded) ==> is_native(encoded) && encoded_hashes(
        encoded,
    ) == Seq::<u128>::empty()) by {
        if integer_of_text(value) is Some {
            let encoded = EncodedTerm::IntegerLiteral(integer_of_text(value)->Some_0);
            assert(is_native(encoded));
        }
    }
    assert(encoded_decimal(value) matches Some(encoded) ==> is_native(encoded) && encoded_hashes(
        encoded,
    ) == Seq::<u128>::empty()) by {
        if decimal_of(bytes) is Some {
            let encoded = EncodedTerm::DecimalLiteral(decimal_of(bytes)->Some_0);
            assert(is_native(encoded));
        }
    }
}

/// The encoding of a literal: the native one where there is one, else the
/// text and the datatype.
pub open spec fn encoded_literal(literal: LiteralView) -> EncodedTerm {
    match native_encoding(literal) {
        Some(term) => term,
        None => encoded_typed(literal.value(), literal.datatype()),
    }
}

/// The encoding of a term.
pub open spec fn encoded_term(term: TermView) -> EncodedTerm
    decreases term,
{
    match term {
        TermView::NamedNode(iri) => encoded_named_node(iri),
        TermView::BlankNode(node) => encoded_blank_node(node),
        TermView::Literal(literal) => encoded_literal(literal),
        TermView::Triple(triple) => EncodedTerm::Triple(Box::new(encoded_triple(*triple))),
    }
}

/// The encoding of a subject.
pub open spec fn encoded_subject(subject: SubjectView) -> EncodedTerm
    decreases subject,
{
    match subject {
        SubjectView::NamedNode(iri) => encoded_named_node(iri),
        SubjectView::BlankNode(node) => encoded_blank_node(node),
        SubjectView::Triple(triple) => EncodedTerm::Triple(Box::new(encoded_triple(*triple))),
    }
}

/// The encoding of a triple.
pub open spec fn encoded_triple(triple: TripleView) -> EncodedTriple
    decreases triple,
{
    EncodedTriple {
        subject: encoded_subject(triple.subject),
        predicate: encoded_named_node(triple.predicate),
        object: encoded_term(triple.object),
    }
}

/// The encoding of the name of a graph.
pub open spec fn encoded_graph_name(name: GraphNameView) -> EncodedTerm {
    match name {
        GraphNameView::NamedNode(iri) => encoded_named_node(iri),
        GraphNameView::BlankNode(node) => encoded_blank_node(node),
        GraphNameView::DefaultGraph => EncodedTerm::DefaultGraph,
    }
}

/// The encoding of a quad.
pub open spec fn encoded_quad(quad: QuadView) -> EncodedQuad {
    EncodedQuad {
        subject: encoded_subject(quad.subject),
        predicate: encoded_named_node(quad.predicate),
        object: encoded_term(quad.object),
        graph_name: encoded_graph_name(quad.graph_name),
    }
}

/// Reads an `xsd:boolean` into its native encoding.
pub fn parse_boolean_str(value: &str) -> (r: Option<EncodedTerm>)
    ensures
        r == encoded_boolean(value@),
{
    match parse_boolean(value) {
        Some(b) => Some(EncodedTerm::BooleanLiteral(b)),
        None => None,
    }
}

/// Reads an integer into its native encoding.
pub fn parse_integer_str(value: &str) -> (r: Option<EncodedTerm>)
    ensures
        r == encoded_integer(value@),
{
    match parse_integer(value) {
        Some(i) => Some(EncodedTerm::IntegerLiteral(i)),
        None => None,
    }
}

/// Reads a decimal into its native encoding.
pub fn parse_decimal_str(value: &str) -> (r: Option<EncodedTerm>)
    ensures
        r == encoded_decimal(value@),
{
    match parse_decimal(value) {
        Some(d) => Some(EncodedTerm::DecimalLiteral(d)),
        None => None,
    }
}

fn parse_date_time_kind(kind: DateTimeKind, value: &str) -> (r: Option<EncodedTerm>)
    ensures
        r == encoded_date_time(kind, value@),
{
    match parse_date_time(kind, value) {
        Some(fields) => Some(
            match kind {
                DateTimeKind::DateTime => EncodedTerm::DateTimeLiteral(fields),
                DateTimeKind::Time => EncodedTerm::TimeLiteral(fields),
                DateTimeKind::Date => EncodedTerm::DateLiteral(fields),
                DateTimeKind::GYearMonth => EncodedTerm::GYearMonthLiteral(fields),
                DateTimeKind::GYear => EncodedTerm::GYearLiteral(fields),
                DateTimeKind::GMonthDay => EncodedTerm::GMonthDayLiteral(fields),
                DateTimeKind::GDay => EncodedTerm::GDayLiteral(fields),
                DateTimeKind::GMonth => EncodedTerm::GMonthLiteral(fields),
            },
        ),
        None => None,
    }
}

fn parse_duration_kind(kind: DurationKind, value: &str) -> (r: Option<EncodedTerm>)
    ensures
        r == encoded_duration(kind, value@),
{
    match parse_duration(kind, value) {
        Some(duration) => Some(
            match kind {
                DurationKind::Duration => EncodedTerm::DurationLiteral(duration),
                DurationKind::YearMonthDuration => EncodedTerm::YearMonthDurationLiteral(
                    duration,
                ),
                DurationKind::DayTimeDuration => EncodedTerm::DayTimeDurationLiteral(duration),
            },
        ),
        None => None,
    }
}

/// Reads an `xsd:dateTime` into its native encoding.
pub fn parse_date_time_str(value: &str) -> (r: Option<EncodedTerm>)
    ensures
        r == encoded_date_time(DateTimeKind::DateTime, value@),
{
    parse_date_time_kind(DateTimeKind::DateTime, value)
}

/// Reads an `xsd:time` into its native encoding.
pub fn parse_time_str(value: &str) -> (r: Option<EncodedTerm>)
    ensures
        r == encoded_date_time(DateTimeKind::Time, value@),
{
    parse_date_time_kind(DateTimeKind::Time, value)
}

/// Reads an `xsd:date` into its native encoding.
pub fn parse_date_str(value: &str) -> (r: Option<EncodedTerm>)
    ensures
        r == encoded_date_time(DateTimeKind::Date, value@),
{
    parse_date_time_kind(DateTimeKind::Date, value)
}

/// Reads an `xsd:gYearMonth` into its native encoding.
pub fn parse_g_year_month_str(value: &str) -> (r: Option<EncodedTerm>)
    ensures
        r == encoded_date_time(DateTimeKind::GYearMonth, value@),
{
    parse_date_time_kind(DateTimeKind::GYearMonth, value)
}

/// Reads an `xsd:gYear` into its native encoding.
pub fn parse_g_year_str(value: &str) -> (r: Option<EncodedTerm>)
    ensures
        r == encoded_date_time(DateTimeKind::GYear, value@),
{
    parse_date_time_kind(DateTimeKind::GYear, value)
}

/// Reads an `xsd:gMonthDay` into its native encoding.
pub fn parse_g_month_day_str(value: &str) -> (r: Option<EncodedTerm>)
    ensures
        r == encoded_date_time(DateTimeKind::GMonthDay, value@),
{
    parse_date_time_kind(DateTimeKind::GMonthDay, value)
}

/// Reads an `xsd:gDay` into its native encoding.
pub fn parse_g_day_str(value: &str) -> (r: Option<EncodedTerm>)
    ensures
        r == encoded_date_time(DateTimeKind::GDay, value@),
{
    parse_date_time_kind(DateTimeKind::GDay, value)
}

/// Reads an `xsd:gMonth` into its native encoding.
pub fn parse_g_month_str(value: &str) -> (r: Option<EncodedTerm>)
    ensures
        r == encoded_date_time(DateTimeKind::GMonth, value@),
{
    parse_date_time_kind(DateTimeKind::GMonth, value)
}

/// Reads an `xsd:duration` into its native encoding.
pub fn parse_duration_str(value: &str) -> (r: Option<EncodedTerm>)
    ensures
        r == encoded_duration(DurationKind::Duration, value@),
{
    parse_duration_kind(DurationKind::Duration, value)
}

/// Reads an `xsd:yearMonthDuration` into its native encoding.
pub fn parse_year_month_duration_str(value: &str) -> (r: Option<EncodedTerm>)
    ensures
        r == encoded_duration(DurationKind::YearMonthDuration, value@),
{
    parse_duration_kind(DurationKind::YearMonthDuration, value)
}

/// Reads an `xsd:dayTimeDuration` into its native encoding.
pub fn parse_day_time_duration_str(value: &str) -> (r: Option<EncodedTerm>)
    ensures
        r == encoded_duration(DurationKind::DayTimeDuration, value@),
{
    parse_duration_kind(DurationKind::DayTimeDuration, value)
}

fn encode_string(value: &str) -> (r: EncodedTerm)
    ensures
        r == encoded_string(value@),
{
    match SmallString::try_from_str(value) {
        Some(small) => EncodedTerm::SmallStringLiteral(small),
        None => EncodedTerm::BigStringLiteral { value_id: StrHash::new(value) },
    }
}

fn encode_lang_string(value: &str, language: &str) -> (r: EncodedTerm)
    ensures
        r == encoded_lang_string(value@, language@),
{
    match SmallString::try_from_str(value) {
        Some(value) => match SmallString::try_from_str(language) {
            Some(language) => EncodedTerm::SmallSmallLangStringLiteral { value, language },
            None => EncodedTerm::SmallBigLangStringLiteral {
                value,
                language_id: StrHash::new(language),
            },
        },
        None => match SmallString::try_from_str(language) {
            Some(language) => EncodedTerm::BigSmallLangStringLiteral {
                value_id: StrHash::new(value),
                language,
            },
            None => EncodedTerm::BigBigLangStringLiteral {
                value_id: StrHash::new(value),
                language_id: StrHash::new(language),
            },
        },
    }
}

fn encode_typed(value: &str, datatype: &str) -> (r: EncodedTerm)
    ensures
        r == encoded_typed(value@, datatype@),
{
    match SmallString::try_from_str(value) {
        Some(value) => EncodedTerm::SmallTypedLiteral {
            value,
            datatype_id: StrHash::new(datatype),
        },
        None => EncodedTerm::BigTypedLiteral {
            value_id: StrHash::new(value),
            datatype_id: StrHash::new(datatype),
        },
    }
}

/// Reads a text with a datatype of numbers, dates, times or durations into
/// its native encoding.
fn parse_native(value: &str, datatype: &str) -> (r: Option<EncodedTerm>)
    ensures
        r == typed_native_encoding(value@, datatype@),
{
    proof {
        reveal(typed_native_encoding);
    }
    if names_integer_datatype(datatype) {
        parse_integer_str(value)
    } else if str_eq(datatype, XSD_DECIMAL) {
        parse_decimal_str(value)
    } else if str_eq(datatype, XSD_DATE_TIME) || str_eq(datatype, XSD_DATE_TIME_STAMP) {
        parse_date_time_str(value)
    } else if str_eq(datatype, XSD_TIME) {
        parse_time_str(value)
    } else if str_eq(datatype, XSD_DATE) {
        parse_date_str(value)
    } else if str_eq(datatype, XSD_G_YEAR_MONTH) {
        parse_g_year_month_str(value)
    } else if str_eq(datatype, XSD_G_YEAR) {
        parse_g_year_str(value)
    } else if str_eq(datatype, XSD_G_MONTH_DAY) {
        parse_g_month_day_str(value)
    } else if str_eq(datatype, XSD_G_DAY) {
        parse_g_day_str(value)
    } else if str_eq(datatype, XSD_G_MONTH) {
        parse_g_month_str(value)
    } else if str_eq(datatype, XSD_DURATION) {
        parse_duration_str(value)
    } else if str_eq(datatype, XSD_YEAR_MONTH_DURATION) {
        parse_year_month_duration_str(value)
    } else if str_eq(datatype, XSD_DAY_TIME_DURATION) {
        parse_day_time_duration_str(value)
    } else {
        None
    }
}

impl EncodedTerm {
    /// Encodes an IRI.
    pub fn from_named_node(node: &NamedNode) -> (r: Self)
        ensures
            r == encoded_named_node(node@),
    {
        Self::NamedNode { iri_id: StrHash::new(node.as_str()) }
    }

    /// Encodes a blank node.
    pub fn from_blank_node(node: &BlankNode) -> (r: Self)
        ensures
            r == encoded_blank_node(node@),
    {
        match node.name() {
            BlankNodeName::Number(id) => Self::NumericalBlankNode { id },
            BlankNodeName::Label(label) => match SmallString::try_from_str(label) {
                Some(small) => Self::SmallBlankNode(small),
                None => Self::BigBlankNode { id_id: StrHash::new(label) },
            },
        }
    }

    /// Encodes a literal. A literal whose datatype the store keeps natively
    /// is read as a value of that datatype; where its text is not in the
    /// lexical space, and for every other datatype, the text is kept.
    pub fn from_literal(literal: &Literal) -> (r: Self)
        ensures
            r == encoded_literal(literal@),
    {
        let value = match literal.form() {
            LiteralForm::Text(value) => value,
            LiteralForm::Float(bits) => { return Self::FloatLiteral(bits); },
            LiteralForm::Double(bits) => { return Self::DoubleLiteral(bits); },
        };
        let datatype = literal.datatype();
        let native_encoding = if str_eq(datatype, RDF_LANG_STRING) {
            match literal.language() {
                Some(language) => Some(encode_lang_string(value, language)),
                None => None,
            }
        } else if str_eq(datatype, XSD_BOOLEAN) {
            parse_boolean_str(value)
        } else if str_eq(datatype, XSD_STRING) {
            Some(encode_string(value))
        } else {
            parse_native(value, datatype)
        };
        match native_encoding {
            Some(term) => term,
            None => encode_typed(value, datatype),
        }
    }

    /// Encodes a term.
    pub fn from_term(term: &Term) -> (r: Self)
        ensures
            r == encoded_term(term@),
        decreases *term,
    {
        match term {
            Term::NamedNode(node) => Self::from_named_node(node),
            Term::BlankNode(node) => Self::from_blank_node(node),
            Term::Literal(literal) => Self::from_literal(literal),
            Term::Triple(triple) => Self::Triple(Box::new(EncodedTriple::from_triple(triple))),
        }
    }

    /// Encodes the subject of a triple.
    pub fn from_subject(subject: &Subject) -> (r: Self)
        ensures
            r == encoded_subject(subject@),
        decreases *subject,
    {
        match subject {
            Subject::NamedNode(node) => Self::from_named_node(node),
            Subject::BlankNode(node) => Self::from_blank_node(node),
            Subject::Triple(triple) => Self::Triple(Box::new(EncodedTriple::from_triple(triple))),
        }
    }

    /// Encodes the name of a graph.
    pub fn from_graph_name(name: &GraphName) -> (r: Self)
        ensures
            r == encoded_graph_name(name@),
    {
        match name {
            GraphName::NamedNode(node) => Self::from_named_node(node),
            GraphName::BlankNode(node) => Self::from_blank_node(node),
            GraphName::DefaultGraph => Self::DefaultGraph,
        }
    }
}

impl EncodedTriple {
    /// Encodes a triple.
    pub fn from_triple(triple: &Triple) -> (r: Self)
        ensures
            r == encoded_triple(triple@),
        decreases *triple,
    {
        Self {
            subject: EncodedTerm::from_subject(&triple.subject),
            predicate: EncodedTerm::from_named_node(&triple.predicate),
            object: EncodedTerm::from_term(&triple.object),
        }
    }
}

impl EncodedQuad {
    /// Encodes a quad.
    pub fn from_quad(quad: &Quad) -> (r: Self)
        ensures
            r == encoded_quad(quad@),
    {
        Self {
            subject: EncodedTerm::from_subject(&quad.subject),
            predicate: EncodedTerm::from_named_node(&quad.predicate),
            object: EncodedTerm::from_term(&quad.object),
            graph_name: EncodedTerm::from_graph_name(&quad.graph_name),
        }
    }
}

/// A table from identifiers to the texts interned under them.
pub trait StrLookup {
    type Error;

    /// What the table holds.
    spec fn strings(&self) -> Map<u128, Seq<char>>;

    /// Whether the table is in order. The lookups ask for it.
    spec fn valid(&self) -> bool;

    /// Whether a lookup in the table cannot fail.
    spec fn never_fails(&self) -> bool;

    /// The text interned under an identifier, if there is one.
    fn get_str(&self, key: &StrHash) -> (r: Result<Option<String>, Self::Error>)
        requires
            self.valid(),
        ensures
            r matches Ok(Some(text)) ==> self.strings().contains_key(key.hash)
                && self.strings()[key.hash] == text@,
            r matches Ok(None) ==> !self.strings().contains_key(key.hash),
            self.never_fails() ==> r is Ok,
    ;

    /// Whether a text is interned under an identifier.
    fn contains_str(&self, key: &StrHash) -> (r: Result<bool, Self::Error>)
        requires
            self.valid(),
        ensures
            r matches Ok(found) ==> found == self.strings().contains_key(key.hash),
            self.never_fails() ==> r is Ok,
    ;
}

/// Why an encoded term has no decoding.
pub enum DecodeFailure {
    DefaultGraphTag,
    MissingString(u128),
    LiteralAsSubject,
    LiteralAsNamedOrBlankNode,
    TripleAsNamedOrBlankNode,
    BlankNodeAsNamedNode,
    LiteralAsNamedNode,
    TripleAsNamedNode,
    LiteralAsGraphName,
    TripleAsGraphName,
}

/// The message that reports a text missing from the table, with the
/// identifier as a decimal number.
pub open spec fn missing_string_text(hash: u128) -> Seq<char> {
    "Not able to find the string with id StrHash { hash: "@ + ascii_text(
        natural_bytes(hash as nat),
    ) + " } in the string store"@
}

/// Writes the message for a missing text.
fn missing_string_message(id: &StrHash) -> (r: String)
    ensures
        r@ == missing_string_text(id.hash),
{
    let mut digits: Vec<u8> = Vec::new();
    push_natural(&mut digits, id.hash);
    proof {
        lemma_natural_bytes(id.hash as nat);
        assert(digits@ =~= natural_bytes(id.hash as nat));
        assert forall|i: int| 0 <= i < digits@.len() implies #[trigger] digits@[i] < 128 by {
            assert(is_digit_byte(digits@[i]));
        }
    }
    let number = ascii_string(&digits);
    let mut text = copy_str("Not able to find the string with id StrHash { hash: ");
    text.append(number.as_str());
    text.append(" } in the string store");
    text
}

/// The message of a failure.
pub open spec fn failure_text(failure: DecodeFailure) -> Seq<char> {
    match failure {
        DecodeFailure::DefaultGraphTag => "The default graph tag is not a valid term"@,
        DecodeFailure::MissingString(hash) => missing_string_text(hash),
        DecodeFailure::LiteralAsSubject => "A literal has been found instead of a subject node"@,
        DecodeFailure::LiteralAsNamedOrBlankNode => {
            "A literal has been found instead of a named or blank node"@
        },
        DecodeFailure::TripleAsNamedOrBlankNode => {
            "A triple has been found instead of a named or blank node"@
        },
        DecodeFailure::BlankNodeAsNamedNode => {
            "A blank node has been found instead of a named node"@
        },
        DecodeFailure::LiteralAsNamedNode => "A literal has been found instead of a named node"@,
        DecodeFailure::TripleAsNamedNode => "A triple has been found instead of a named node"@,
        DecodeFailure::LiteralAsGraphName => "A literal is not a valid graph name"@,
        DecodeFailure::TripleAsGraphName => "A triple is not a valid graph name"@,
    }
}

/// The error of a decoding: the table failed, or the term has no decoding.
#[derive(Debug)]
pub enum DecoderError<E> {
    Store(E),
    Decoder { msg: String },
}

/// The text under an identifier, which has to be there.
pub open spec fn required_str(strings: Map<u128, Seq<char>>, id: StrHash) -> Result<
    Seq<char>,
    DecodeFailure,
> {
    if strings.contains_key(id.hash) {
        Ok(strings[id.hash])
    } else {
        Err(DecodeFailure::MissingString(id.hash))
    }
}

/// The literal of a text with a language tag, both of which may fail.
pub open spec fn decoded_lang_string(
    value: Result<Seq<char>, DecodeFailure>,
    language: Result<Seq<char>, DecodeFailure>,
) -> Result<TermView, DecodeFailure> {
    match value {
        Err(failure) => Err(failure),
        Ok(value) => match language {
            Err(failure) => Err(failure),
            Ok(language) => Ok(TermView::Literal(LiteralView::LanguageTagged { value, language })),
        },
    }
}

/// The literal of a text with a datatype, both of which may fail.
pub open spec fn decoded_typed(
    value: Result<Seq<char>, DecodeFailure>,
    datatype: Result<Seq<char>, DecodeFailure>,
) -> Result<TermView, DecodeFailure> {
    match value {
        Err(failure) => Err(failure),
        Ok(value) => match datatype {
            Err(failure) => Err(failure),
            Ok(datatype) => Ok(TermView::Literal(typed_literal_of(value, datatype))),
        },
    }
}

/// The literal that a natively encoded value stands for: the value in its
/// canonical lexical form, with its datatype.
pub open spec fn native_literal(encoded: EncodedTerm) -> Option<LiteralView> {
    match encoded {
        EncodedTerm::BooleanLiteral(value) => Some(
            typed_literal_of(boolean_text(value), xsd_boolean()),
        ),
        EncodedTerm::FloatLiteral(bits) => Some(LiteralView::Float { bits }),
        EncodedTerm::DoubleLiteral(bits) => Some(LiteralView::Double { bits }),
        EncodedTerm::IntegerLiteral(value) => Some(
            typed_literal_of(integer_text(value as int), xsd_integer()),
        ),
        EncodedTerm::DecimalLiteral(value) => Some(
            typed_literal_of(decimal_text(value), xsd_decimal()),
        ),
        EncodedTerm::DateTimeLiteral(value) => Some(
            typed_literal_of(date_time_text(DateTimeKind::DateTime, value), xsd_date_time()),
        ),
        EncodedTerm::TimeLiteral(value) => Some(
            typed_literal_of(date_time_text(DateTimeKind::Time, value), xsd_time()),
        ),
        EncodedTerm::DateLiteral(value) => Some(
            typed_literal_of(date_time_text(DateTimeKind::Date, value), xsd_date()),
        ),
        EncodedTerm::GYearMonthLiteral(value) => Some(
            typed_literal_of(date_time_text(DateTimeKind::GYearMonth, value), xsd_g_year_month()),
        ),
        EncodedTerm::GYearLiteral(value) => Some(
            typed_literal_of(date_time_text(DateTimeKind::GYear, value), xsd_g_year()),
        ),
        EncodedTerm::GMonthDayLiteral(value) => Some(
            typed_literal_of(date_time_text(DateTimeKind::GMonthDay, value), xsd_g_month_day()),
        ),
        EncodedTerm::GDayLiteral(value) => Some(
            typed_literal_of(date_time_text(DateTimeKind::GDay, value), xsd_g_day()),
        ),
        EncodedTerm::GMonthLiteral(value) => Some(
            typed_literal_of(date_time_text(DateTimeKind::GMonth, value), xsd_g_month()),
        ),
        EncodedTerm::DurationLiteral(value) => Some(
            typed_literal_of(duration_text(DurationKind::Duration, value), xsd_duration()),
        ),
        EncodedTerm::YearMonthDurationLiteral(value) => Some(
            typed_literal_of(
                duration_text(DurationKind::YearMonthDuration, value),
                xsd_year_month_duration(),
            ),
        ),
        EncodedTerm::DayTimeDurationLiteral(value) => Some(
            typed_literal_of(
                duration_text(DurationKind::DayTimeDuration, value),
                xsd_day_time_duration(),
            ),
        ),
        _ => None,
    }
}

/// The term that an encoded term stands for, over a table of texts.
pub open spec fn decoded_term(encoded: EncodedTerm, strings: Map<u128, Seq<char>>) -> Result<
    TermView,
    DecodeFailure,
>
    decreases encoded, 0int,
{
    match encoded {
        EncodedTerm::DefaultGraph => Err(DecodeFailure::DefaultGraphTag),
        EncodedTerm::NamedNode { iri_id } => match required_str(strings, iri_id) {
            Ok(iri) => Ok(TermView::NamedNode(iri)),
            Err(failure) => Err(failure),
        },
        EncodedTerm::NumericalBlankNode { id } => Ok(
            TermView::BlankNode(BlankNodeView::Anonymous(id)),
        ),
        EncodedTerm::SmallBlankNode(id) => Ok(TermView::BlankNode(blank_node_of_label(id@))),
        EncodedTerm::BigBlankNode { id_id } => match required_str(strings, id_id) {
            Ok(label) => Ok(TermView::BlankNode(blank_node_of_label(label))),
            Err(failure) => Err(failure),
        },
        EncodedTerm::SmallStringLiteral(value) => Ok(
            TermView::Literal(LiteralView::Simple { value: value@ }),
        ),
        EncodedTerm::BigStringLiteral { value_id } => match required_str(strings, value_id) {
            Ok(value) => Ok(TermView::Literal(LiteralView::Simple { value })),
            Err(failure) => Err(failure),
        },
        EncodedTerm::SmallSmallLangStringLiteral { value, language } => decoded_lang_string(
            Ok(value@),
            Ok(language@),
        ),
        EncodedTerm::SmallBigLangStringLiteral { value, language_id } => decoded_lang_string(
            Ok(value@),
            required_str(strings, language_id),
        ),
        EncodedTerm::BigSmallLangStringLiteral { value_id, language } => decoded_lang_string(
            required_str(strings, value_id),
            Ok(language@),
        ),
        EncodedTerm::BigBigLangStringLiteral { value_id, language_id } => decoded_lang_string(
            required_str(strings, value_id),
            required_str(strings, language_id),
        ),
        EncodedTerm::SmallTypedLiteral { value, datatype_id } => decoded_typed(
            Ok(value@),
            required_str(strings, datatype_id),
        ),
        EncodedTerm::BigTypedLiteral { value_id, datatype_id } => decoded_typed(
            required_str(strings, value_id),
            required_str(strings, datatype_id),
        ),
        EncodedTerm::Triple(triple) => match decoded_triple(*triple, strings) {
            Ok(triple) => Ok(TermView::Triple(Box::new(triple))),
            Err(failure) => Err(failure),
        },
        _ => match native_literal(encoded) {
            Some(literal) => Ok(TermView::Literal(literal)),
            None => Err(DecodeFailure::DefaultGraphTag),
        },
    }
}

/// The subject that an encoded term stands for.
pub open spec fn decoded_subject(encoded: EncodedTerm, strings: Map<u128, Seq<char>>) -> Result<
    SubjectView,
    DecodeFailure,
>
    decreases encoded, 1int,
{
    match decoded_term(encoded, strings) {
        Ok(TermView::NamedNode(iri)) => Ok(SubjectView::NamedNode(iri)),
        Ok(TermView::BlankNode(node)) => Ok(SubjectView::BlankNode(node)),
        Ok(TermView::Literal(_)) => Err(DecodeFailure::LiteralAsSubject),
        Ok(TermView::Triple(triple)) => Ok(SubjectView::Triple(triple)),
        Err(failure) => Err(failure),
    }
}

/// The IRI that an encoded term stands for.
pub open spec fn decoded_named_node(encoded: EncodedTerm, strings: Map<u128, Seq<char>>) -> Result<
    Seq<char>,
    DecodeFailure,
>
    decreases encoded, 1int,
{
    match decoded_term(encoded, strings) {
        Ok(TermView::NamedNode(iri)) => Ok(iri),
        Ok(TermView::BlankNode(_)) => Err(DecodeFailure::BlankNodeAsNamedNode),
        Ok(TermView::Literal(_)) => Err(DecodeFailure::LiteralAsNamedNode),
        Ok(TermView::Triple(_)) => Err(DecodeFailure::TripleAsNamedNode),
        Err(failure) => Err(failure),
    }
}

/// The IRI or blank node that an encoded term stands for, as a graph name.
pub open spec fn decoded_named_or_blank_node(
    encoded: EncodedTerm,
    strings: Map<u128, Seq<char>>,
) -> Result<GraphNameView, DecodeFailure> {
    match decoded_term(encoded, strings) {
        Ok(TermView::NamedNode(iri)) => Ok(GraphNameView::NamedNode(iri)),
        Ok(TermView::BlankNode(node)) => Ok(GraphNameView::BlankNode(node)),
        Ok(TermView::Literal(_)) => Err(DecodeFailure::LiteralAsNamedOrBlankNode),
        Ok(TermView::Triple(_)) => Err(DecodeFailure::TripleAsNamedOrBlankNode),
        Err(failure) => Err(failure),
    }
}

/// The triple that an encoded triple stands for: the first failure among
/// its subject, its predicate and its object, if one fails.
pub open spec fn decoded_triple(encoded: EncodedTriple, strings: Map<u128, Seq<char>>) -> Result<
    TripleView,
    DecodeFailure,
>
    decreases encoded, 0int,
{
    match decoded_subject(encoded.subject, strings) {
        Err(failure) => Err(failure),
        Ok(subject) => match decoded_named_node(encoded.predicate, strings) {
            Err(failure) => Err(failure),
            Ok(predicate) => match decoded_term(encoded.object, strings) {
                Err(failure) => Err(failure),
                Ok(object) => Ok(TripleView { subject, predicate, object }),
            },
        },
    }
}

/// The graph name that an encoded term stands for in a quad.
pub open spec fn decoded_graph_name(encoded: EncodedTerm, strings: Map<u128, Seq<char>>) -> Result<
    GraphNameView,
    DecodeFailure,
> {
    if encoded == EncodedTerm::DefaultGraph {
        Ok(GraphNameView::DefaultGraph)
    } else {
        match decoded_term(encoded, strings) {
            Ok(TermView::NamedNode(iri)) => Ok(GraphNameView::NamedNode(iri)),
            Ok(TermView::BlankNode(node)) => Ok(GraphNameView::BlankNode(node)),
            Ok(TermView::Literal(_)) => Err(DecodeFailure::LiteralAsGraphName),
            Ok(TermView::Triple(_)) => Err(DecodeFailure::TripleAsGraphName),
            Err(failure) => Err(failure),
        }
    }
}

/// The quad that an encoded quad stands for.
pub open spec fn decoded_quad(encoded: EncodedQuad, strings: Map<u128, Seq<char>>) -> Result<
    QuadView,
    DecodeFailure,
> {
    match decoded_subject(encoded.subject, strings) {
        Err(failure) => Err(failure),
        Ok(subject) => match decoded_named_node(encoded.predicate, strings) {
            Err(failure) => Err(failure),
            Ok(predicate) => match decoded_term(encoded.object, strings) {
                Err(failure) => Err(failure),
                Ok(object) => match decoded_graph_name(encoded.graph_name, strings) {
                    Err(failure) => Err(failure),
                    Ok(graph_name) => Ok(QuadView { subject, predicate, object, graph_name }),
                },
            },
        },
    }
}

/// What a decoding may return for a term whose decoding is `expected`: the
/// decoded value, the message of the failure, or an error of the table where
/// the table can fail.
pub open spec fn decoding_outcome<T: View, E>(
    r: Result<T, DecoderError<E>>,
    expected: Result<T::V, DecodeFailure>,
    never_fails: bool,
) -> bool {
    match r {
        Ok(value) => expected == Ok::<T::V, DecodeFailure>(value@),
        Err(DecoderError::Decoder { msg }) => expected is Err && msg@ == failure_text(
            expected->Err_0,
        ),
        Err(DecoderError::Store(_)) => !never_fails,
    }
}

fn decoder_error<E>(text: &str) -> (r: DecoderError<E>)
    ensures
        r matches DecoderError::Decoder { msg } && msg@ == text@,
{
    DecoderError::Decoder { msg: copy_str(text) }
}

/// Fetches a text that has to be in the table.
pub fn get_required_str<L: StrLookup>(lookup: &L, id: &StrHash) -> (r: Result<
    String,
    DecoderError<L::Error>,
>)
    requires
        lookup.valid(),
    ensures
        decoding_outcome(r, required_str(lookup.strings(), *id), lookup.never_fails()),
{
    match lookup.get_str(id) {
        Err(error) => Err(DecoderError::Store(error)),
        Ok(Some(text)) => Ok(text),
        Ok(None) => Err(DecoderError::Decoder { msg: missing_string_message(id) }),
    }
}

/// Decodes a term.
pub fn decode_term<L: StrLookup>(lookup: &L, encoded: &EncodedTerm) -> (r: Result<
    Term,
    DecoderError<L::Error>,
>)
    requires
        lookup.valid(),
    ensures
        decoding_outcome(r, decoded_term(*encoded, lookup.strings()), lookup.never_fails()),
        encoded_hashes(*encoded).len() == 0 ==> !(r matches Err(DecoderError::Store(_))),
    decreases *encoded, 0int,
{
    match encoded {
        EncodedTerm::DefaultGraph => Err(
            decoder_error("The default graph tag is not a valid term"),
        ),
        EncodedTerm::NamedNode { iri_id } => {
            let iri = get_required_str(lookup, iri_id)?;
            Ok(Term::NamedNode(NamedNode::new_unchecked(iri)))
        },
        EncodedTerm::NumericalBlankNode { id } => Ok(
            Term::BlankNode(BlankNode::new_from_unique_id(*id)),
        ),
        EncodedTerm::SmallBlankNode(id) => Ok(
            Term::BlankNode(BlankNode::new_unchecked(id.to_string())),
        ),
        EncodedTerm::BigBlankNode { id_id } => {
            let label = get_required_str(lookup, id_id)?;
            Ok(Term::BlankNode(BlankNode::new_unchecked(label)))
        },
        EncodedTerm::SmallStringLiteral(value) => Ok(
            Term::Literal(Literal::new_simple_literal(value.to_string())),
        ),
        EncodedTerm::BigStringLiteral { value_id } => {
            let value = get_required_str(lookup, value_id)?;
            Ok(Term::Literal(Literal::new_simple_literal(value)))
        },
        EncodedTerm::SmallSmallLangStringLiteral { value, language } => Ok(
            Term::Literal(
                Literal::new_language_tagged_literal_unchecked(
                    value.to_string(),
                    language.to_string(),
                ),
            ),
        ),
        EncodedTerm::SmallBigLangStringLiteral { value, language_id } => {
            let language = get_required_str(lookup, language_id)?;
            Ok(
                Term::Literal(
                    Literal::new_language_tagged_literal_unchecked(value.to_string(), language),
                ),
            )
        },
        EncodedTerm::BigSmallLangStringLiteral { value_id, language } => {
            let value = get_required_str(lookup, value_id)?;
            Ok(
                Term::Literal(
                    Literal::new_language_tagged_literal_unchecked(value, language.to_string()),
                ),
            )
        },
        EncodedTerm::BigBigLangStringLiteral { value_id, language_id } => {
            let value = get_required_str(lookup, value_id)?;
            let language = get_required_str(lookup, language_id)?;
            Ok(Term::Literal(Literal::new_language_tagged_literal_unchecked(value, language)))
        },
        EncodedTerm::SmallTypedLiteral { value, datatype_id } => {
            let datatype = get_required_str(lookup, datatype_id)?;
            Ok(
                Term::Literal(
                    Literal::held(
                        value.to_string(),
                        NamedNode::new_unchecked(datatype),
                    ),
                ),
            )
        },
        EncodedTerm::BigTypedLiteral { value_id, datatype_id } => {
            let value = get_required_str(lookup, value_id)?;
            let datatype = get_required_str(lookup, datatype_id)?;
            Ok(Term::Literal(Literal::held(value, NamedNode::new_unchecked(datatype))))
        },
        EncodedTerm::BooleanLiteral(value) => Ok(
            Term::Literal(
                Literal::held(
                    format_boolean(*value),
                    NamedNode::new_unchecked(copy_str(XSD_BOOLEAN)),
                ),
            ),
        ),
        EncodedTerm::FloatLiteral(bits) => Ok(Term::Literal(Literal::from_float_bits(*bits))),
        EncodedTerm::DoubleLiteral(bits) => Ok(Term::Literal(Literal::from_double_bits(*bits))),
        EncodedTerm::IntegerLiteral(value) => Ok(
            Term::Literal(
                Literal::held(
                    format_integer(*value),
                    NamedNode::new_unchecked(copy_str(XSD_INTEGER)),
                ),
            ),
        ),
        EncodedTerm::DecimalLiteral(value) => Ok(
            Term::Literal(
                Literal::held(
                    format_decimal(value),
                    NamedNode::new_unchecked(copy_str(XSD_DECIMAL)),
                ),
            ),
        ),
        EncodedTerm::DateTimeLiteral(value) => Ok(
            date_time_literal(DateTimeKind::DateTime, value, XSD_DATE_TIME),
        ),
        EncodedTerm::TimeLiteral(value) => Ok(
            date_time_literal(DateTimeKind::Time, value, XSD_TIME),
        ),
        EncodedTerm::DateLiteral(value) => Ok(
            date_time_literal(DateTimeKind::Date, value, XSD_DATE),
        ),
        EncodedTerm::GYearMonthLiteral(value) => Ok(
            date_time_literal(DateTimeKind::GYearMonth, value, XSD_G_YEAR_MONTH),
        ),
        EncodedTerm::GYearLiteral(value) => Ok(
            date_time_literal(DateTimeKind::GYear, value, XSD_G_YEAR),
        ),
        EncodedTerm::GMonthDayLiteral(value) => Ok(
            date_time_literal(DateTimeKind::GMonthDay, value, XSD_G_MONTH_DAY),
        ),
        EncodedTerm::GDayLiteral(value) => Ok(
            date_time_literal(DateTimeKind::GDay, value, XSD_G_DAY),
        ),
        EncodedTerm::GMonthLiteral(value) => Ok(
            date_time_literal(DateTimeKind::GMonth, value, XSD_G_MONTH),
        ),
        EncodedTerm::DurationLiteral(value) => Ok(
            duration_literal(DurationKind::Duration, value, XSD_DURATION),
        ),
        EncodedTerm::YearMonthDurationLiteral(value) => Ok(
            duration_literal(DurationKind::YearMonthDuration, value, XSD_YEAR_MONTH_DURATION),
        ),
        EncodedTerm::DayTimeDurationLiteral(value) => Ok(
            duration_literal(DurationKind::DayTimeDuration, value, XSD_DAY_TIME_DURATION),
        ),
        EncodedTerm::Triple(triple) => {
            let triple = decode_triple(lookup, triple)?;
            Ok(Term::Triple(Box::new(triple)))
        },
    }
}

fn date_time_literal(kind: DateTimeKind, value: &DateTimeFields, datatype: &str) -> (r: Term)
    ensures
        r@ == TermView::Literal(typed_literal_of(date_time_text(kind, *value), datatype@)),
{
    Term::Literal(
        Literal::held(
            format_date_time(kind, value),
            NamedNode::new_unchecked(copy_str(datatype)),
        ),
    )
}

fn duration_literal(kind: DurationKind, value: &Duration, datatype: &str) -> (r: Term)
    ensures
        r@ == TermView::Literal(typed_literal_of(duration_text(kind, *value), datatype@)),
{
    Term::Literal(
        Literal::held(
            format_duration(kind, value),
            NamedNode::new_unchecked(copy_str(datatype)),
        ),
    )
}

/// Decodes the subject of a triple.
pub fn decode_subject<L: StrLookup>(lookup: &L, encoded: &EncodedTerm) -> (r: Result<
    Subject,
    DecoderError<L::Error>,
>)
    requires
        lookup.valid(),
    ensures
        decoding_outcome(r, decoded_subject(*encoded, lookup.strings()), lookup.never_fails()),
        encoded_hashes(*encoded).len() == 0 ==> !(r matches Err(DecoderError::Store(_))),
    decreases *encoded, 1int,
{
    match decode_term(lookup, encoded)? {
        Term::NamedNode(node) => Ok(Subject::NamedNode(node)),
        Term::BlankNode(node) => Ok(Subject::BlankNode(node)),
        Term::Literal(_) => Err(
            decoder_error("A literal has been found instead of a subject node"),
        ),
        Term::Triple(triple) => Ok(Subject::Triple(triple)),
    }
}

/// Decodes a term that has to be an IRI or a blank node.
pub fn decode_named_or_blank_node<L: StrLookup>(lookup: &L, encoded: &EncodedTerm) -> (r: Result<
    GraphName,
    DecoderError<L::Error>,
>)
    requires
        lookup.valid(),
    ensures
        decoding_outcome(
            r,
            decoded_named_or_blank_node(*encoded, lookup.strings()),
            lookup.never_fails(),
        ),
        encoded_hashes(*encoded).len() == 0 ==> !(r matches Err(DecoderError::Store(_))),
{
    match decode_term(lookup, encoded)? {
        Term::NamedNode(node) => Ok(GraphName::NamedNode(node)),
        Term::BlankNode(node) => Ok(GraphName::BlankNode(node)),
        Term::Literal(_) => Err(
            decoder_error("A literal has been found instead of a named or blank node"),
        ),
        Term::Triple(_) => Err(
            decoder_error("A triple has been found instead of a named or blank node"),
        ),
    }
}

/// Decodes a term that has to be an IRI.
pub fn decode_named_node<L: StrLookup>(lookup: &L, encoded: &EncodedTerm) -> (r: Result<
    NamedNode,
    DecoderError<L::Error>,
>)
    requires
        lookup.valid(),
    ensures
        decoding_outcome(r, decoded_named_node(*encoded, lookup.strings()), lookup.never_fails()),
        encoded_hashes(*encoded).len() == 0 ==> !(r matches Err(DecoderError::Store(_))),
    decreases *encoded, 1int,
{
    match decode_term(lookup, encoded)? {
        Term::NamedNode(node) => Ok(node),
        Term::BlankNode(_) => Err(
            decoder_error("A blank node has been found instead of a named node"),
        ),
        Term::Literal(_) => Err(decoder_error("A literal has been found instead of a named node")),
        Term::Triple(_) => Err(decoder_error("A triple has been found instead of a named node")),
    }
}

/// Decodes a triple.
pub fn decode_triple<L: StrLookup>(lookup: &L, encoded: &EncodedTriple) -> (r: Result<
    Triple,
    DecoderError<L::Error>,
>)
    requires
        lookup.valid(),
    ensures
        decoding_outcome(r, decoded_triple(*encoded, lookup.strings()), lookup.never_fails()),
        encoded_hashes(encoded.subject).len() + encoded_hashes(encoded.predicate).len()
            + encoded_hashes(encoded.object).len() == 0 ==> !(r matches Err(
            DecoderError::Store(_),
        )),
    decreases *encoded, 0int,
{
    let subject = decode_subject(lookup, &encoded.subject)?;
    let predicate = decode_named_node(lookup, &encoded.predicate)?;
    let object = decode_term(lookup, &encoded.object)?;
    Ok(Triple::new(subject, predicate, object))
}

/// Decodes a quad.
pub fn decode_quad<L: StrLookup>(lookup: &L, encoded: &EncodedQuad) -> (r: Result<
    Quad,
    DecoderError<L::Error>,
>)
    requires
        lookup.valid(),
    ensures
        decoding_outcome(r, decoded_quad(*encoded, lookup.strings()), lookup.never_fails()),
        encoded_hashes(encoded.subject).len() + encoded_hashes(encoded.predicate).len()
            + encoded_hashes(encoded.object).len() + encoded_hashes(encoded.graph_name).len() == 0
            ==> !(r matches Err(DecoderError::Store(_))),
{
    let subject = decode_subject(lookup, &encoded.subject)?;
    let predicate = decode_named_node(lookup, &encoded.predicate)?;
    let object = decode_term(lookup, &encoded.object)?;
    let graph_name = if encoded.graph_name.is_default_graph() {
        GraphName::DefaultGraph
    } else {
        match decode_term(lookup, &encoded.graph_name)? {
            Term::NamedNode(node) => GraphName::NamedNode(node),
            Term::BlankNode(node) => GraphName::BlankNode(node),
            Term::Literal(_) => {
                return Err(decoder_error("A literal is not a valid graph name"));
            },
            Term::Triple(_) => {
                return Err(decoder_error("A triple is not a valid graph name"));
            },
        }
    };
    Ok(Quad::new(subject, predicate, object, graph_name))
}

/// A text with the identifier under which it is to be interned.
pub struct StrRef {
    pub hash: u128,
    pub text: Seq<char>,
}

/// A table after references to some texts, one after the other.
pub open spec fn table_insert_all(table: Map<u128, StrEntryView>, refs: Seq<StrRef>) -> Map<
    u128,
    StrEntryView,
>
    decreases refs.len(),
{
    if refs.len() == 0 {
        table
    } else {
        table_insert(table_insert_all(table, refs.drop_last()), refs.last().hash, refs.last().text)
    }
}

/// A table after references under some identifiers are taken away, one
/// after the other.
pub open spec fn table_remove_all(table: Map<u128, StrEntryView>, hashes: Seq<u128>) -> Map<
    u128,
    StrEntryView,
>
    decreases hashes.len(),
{
    if hashes.len() == 0 {
        table
    } else {
        table_remove(table_remove_all(table, hashes.drop_last()), hashes.last())
    }
}

/// Interning no text leaves the table as it is.
pub proof fn lemma_table_insert_none(table: Map<u128, StrEntryView>)
    ensures
        table_insert_all(table, Seq::empty()) == table,
{
}

/// Interning one text is one insertion.
pub proof fn lemma_table_insert_one(table: Map<u128, StrEntryView>, one: StrRef)
    ensures
        table_insert_all(table, seq![one]) == table_insert(table, one.hash, one.text),
{
    let refs = seq![one];
    assert(refs.drop_last() =~= Seq::<StrRef>::empty());
    assert(table_insert_all(table, refs.drop_last()) == table);
    assert(refs.last() == one);
}

/// Taking one reference away is one removal.
pub proof fn lemma_table_remove_one(table: Map<u128, StrEntryView>, hash: u128)
    ensures
        table_remove_all(table, seq![hash]) == table_remove(table, hash),
{
    let hashes = seq![hash];
    assert(hashes.drop_last() =~= Seq::<u128>::empty());
    assert(table_remove_all(table, hashes.drop_last()) == table);
    assert(hashes.last() == hash);
}

pub proof fn lemma_table_insert_all_concat(
    table: Map<u128, StrEntryView>,
    a: Seq<StrRef>,
    b: Seq<StrRef>,
)
    ensures
        table_insert_all(table, a + b) == table_insert_all(table_insert_all(table, a), b),
    decreases b.len(),
{
    if b.len() == 0 {
        assert(a + b =~= a);
    } else {
        lemma_table_insert_all_concat(table, a, b.drop_last());
        assert((a + b).drop_last() =~= a + b.drop_last());
        assert((a + b).last() == b.last());
    }
}

pub proof fn lemma_table_remove_all_concat(
    table: Map<u128, StrEntryView>,
    a: Seq<u128>,
    b: Seq<u128>,
)
    ensures
        table_remove_all(table, a + b) == table_remove_all(table_remove_all(table, a), b),
    decreases b.len(),
{
    if b.len() == 0 {
        assert(a + b =~= a);
    } else {
        lemma_table_remove_all_concat(table, a, b.drop_last());
        assert((a + b).drop_last() =~= a + b.drop_last());
        assert((a + b).last() == b.last());
    }
}

/// The text of a literal under an identifier, if the literal has a text.
pub open spec fn literal_value_ref(literal: LiteralView, id: StrHash) -> Seq<StrRef> {
    match literal {
        LiteralView::Float { .. } => Seq::empty(),
        LiteralView::Double { .. } => Seq::empty(),
        _ => seq![StrRef { hash: id.hash, text: literal.value() }],
    }
}

/// The language tag of a literal under an identifier, if the literal has
/// one.
pub open spec fn literal_language_ref(literal: LiteralView, id: StrHash) -> Seq<StrRef> {
    match literal.language() {
        Some(language) => seq![StrRef { hash: id.hash, text: language }],
        None => Seq::empty(),
    }
}

/// The texts that the encoding of a literal refers to by identifier.
pub open spec fn literal_strings(literal: LiteralView, encoded: EncodedTerm) -> Seq<StrRef> {
    match encoded {
        EncodedTerm::BigStringLiteral { value_id } => literal_value_ref(literal, value_id),
        EncodedTerm::SmallBigLangStringLiteral { language_id, .. } => literal_language_ref(
            literal,
            language_id,
        ),
        EncodedTerm::BigSmallLangStringLiteral { value_id, .. } => literal_value_ref(
            literal,
            value_id,
        ),
        EncodedTerm::BigBigLangStringLiteral { value_id, language_id } => literal_value_ref(
            literal,
            value_id,
        ) + literal_language_ref(literal, language_id),
        EncodedTerm::SmallTypedLiteral { datatype_id, .. } => seq![
            StrRef { hash: datatype_id.hash, text: literal.datatype() },
        ],
        EncodedTerm::BigTypedLiteral { value_id, datatype_id } => literal_value_ref(
            literal,
            value_id,
        ) + seq![StrRef { hash: datatype_id.hash, text: literal.datatype() }],
        _ => Seq::empty(),
    }
}

/// The text of an IRI under the identifier in its encoding.
pub open spec fn named_node_strings(iri: Seq<char>, encoded: EncodedTerm) -> Seq<StrRef> {
    match encoded {
        EncodedTerm::NamedNode { iri_id } => seq![StrRef { hash: iri_id.hash, text: iri }],
        _ => Seq::empty(),
    }
}

/// The label of a blank node under the identifier in its encoding.
pub open spec fn blank_node_strings(node: BlankNodeView, encoded: EncodedTerm) -> Seq<StrRef> {
    match (node, encoded) {
        (BlankNodeView::Named(label), EncodedTerm::BigBlankNode { id_id }) => seq![
            StrRef { hash: id_id.hash, text: label },
        ],
        _ => Seq::empty(),
    }
}

/// The texts that the encoding of a term refers to by identifier, in the
/// order in which they are interned. Where the encoding is not of the shape
/// of the term there are none.
pub open spec fn term_strings(term: TermView, encoded: EncodedTerm) -> Seq<StrRef>
    decreases term,
{
    match term {
        TermView::NamedNode(iri) => named_node_strings(iri, encoded),
        TermView::BlankNode(node) => blank_node_strings(node, encoded),
        TermView::Literal(literal) => literal_strings(literal, encoded),
        TermView::Triple(triple) => match encoded {
            EncodedTerm::Triple(encoded) => triple_strings(*triple, *encoded),
            _ => Seq::empty(),
        },
    }
}

/// The texts that the encoding of a subject refers to by identifier.
pub open spec fn subject_strings(subject: SubjectView, encoded: EncodedTerm) -> Seq<StrRef>
    decreases subject,
{
    match subject {
        SubjectView::NamedNode(iri) => named_node_strings(iri, encoded),
        SubjectView::BlankNode(node) => blank_node_strings(node, encoded),
        SubjectView::Triple(triple) => match encoded {
            EncodedTerm::Triple(encoded) => triple_strings(*triple, *encoded),
            _ => Seq::empty(),
        },
    }
}

/// The texts that the encoding of a triple refers to by identifier: those
/// of the subject, then of the predicate, then of the object.
pub open spec fn triple_strings(triple: TripleView, encoded: EncodedTriple) -> Seq<StrRef>
    decreases triple,
{
    subject_strings(triple.subject, encoded.subject) + named_node_strings(
        triple.predicate,
        encoded.predicate,
    ) + term_strings(triple.object, encoded.object)
}

/// The identifiers that an encoded term holds, in the order in which their
/// references are taken away.
pub open spec fn encoded_hashes(encoded: EncodedTerm) -> Seq<u128>
    decreases encoded,
{
    match encoded {
        EncodedTerm::NamedNode { iri_id } => seq![iri_id.hash],
        EncodedTerm::BigBlankNode { id_id } => seq![id_id.hash],
        EncodedTerm::BigStringLiteral { value_id } => seq![value_id.hash],
        EncodedTerm::SmallBigLangStringLiteral { language_id, .. } => seq![language_id.hash],
        EncodedTerm::BigSmallLangStringLiteral { value_id, .. } => seq![value_id.hash],
        EncodedTerm::BigBigLangStringLiteral { value_id, language_id } => seq![
            value_id.hash,
            language_id.hash,
        ],
        EncodedTerm::SmallTypedLiteral { datatype_id, .. } => seq![datatype_id.hash],
        EncodedTerm::BigTypedLiteral { value_id, datatype_id } => seq![
            value_id.hash,
            datatype_id.hash,
        ],
        EncodedTerm::Triple(triple) => encoded_hashes(triple.subject) + encoded_hashes(
            triple.predicate,
        ) + encoded_hashes(triple.object),
        _ => Seq::empty(),
    }
}

/// Interns the text of an IRI under the identifier in its encoding.
pub fn insert_named_node_values(node: &NamedNode, encoded: &EncodedTerm, store: &mut StringStore)
    requires
        old(store).wf(),
    ensures
        final(store).wf(),
        final(store)@ == table_insert_all(old(store)@, named_node_strings(node@, *encoded)),
{
    if let EncodedTerm::NamedNode { iri_id } = encoded {
        store.insert(iri_id, node.as_str());
        proof {
            lemma_table_insert_one(old(store)@, StrRef { hash: iri_id.hash, text: node@ });
        }
    } else {
        proof {
            lemma_table_insert_none(old(store)@);
        }
    }
}

/// Interns the label of a blank node under the identifier in its encoding.
pub fn insert_blank_node_values(node: &BlankNode, encoded: &EncodedTerm, store: &mut StringStore)
    requires
        old(store).wf(),
    ensures
        final(store).wf(),
        final(store)@ == table_insert_all(old(store)@, blank_node_strings(node@, *encoded)),
{
    proof {
        lemma_table_insert_none(old(store)@);
    }
    if let EncodedTerm::BigBlankNode { id_id } = encoded {
        if let Some(label) = node.label() {
            store.insert(id_id, label);
            proof {
                lemma_table_insert_one(old(store)@, StrRef { hash: id_id.hash, text: label@ });
            }
        }
    }
}

fn insert_literal_value(literal: &Literal, id: &StrHash, store: &mut StringStore)
    requires
        old(store).wf(),
    ensures
        final(store).wf(),
        final(store)@ == table_insert_all(old(store)@, literal_value_ref(literal@, *id)),
{
    proof {
        lemma_table_insert_none(old(store)@);
    }
    if let Some(value) = literal.value() {
        store.insert(id, value);
        proof {
            lemma_table_insert_one(old(store)@, StrRef { hash: id.hash, text: value@ });
        }
    }
}

fn insert_literal_language(literal: &Literal, id: &StrHash, store: &mut StringStore)
    requires
        old(store).wf(),
    ensures
        final(store).wf(),
        final(store)@ == table_insert_all(old(store)@, literal_language_ref(literal@, *id)),
{
    proof {
        lemma_table_insert_none(old(store)@);
    }
    if let Some(language) = literal.language() {
        store.insert(id, language);
        proof {
            lemma_table_insert_one(old(store)@, StrRef { hash: id.hash, text: language@ });
        }
    }
}

fn insert_literal_datatype(literal: &Literal, id: &StrHash, store: &mut StringStore)
    requires
        old(store).wf(),
    ensures
        final(store).wf(),
        final(store)@ == table_insert_all(
            old(store)@,
            seq![StrRef { hash: id.hash, text: literal@.datatype() }],
        ),
{
    store.insert(id, literal.datatype());
    proof {
        lemma_table_insert_one(
            old(store)@,
            StrRef { hash: id.hash, text: literal@.datatype() },
        );
    }
}

fn insert_literal_values(literal: &Literal, encoded: &EncodedTerm, store: &mut StringStore)
    requires
        old(store).wf(),
    ensures
        final(store).wf(),
        final(store)@ == table_insert_all(old(store)@, literal_strings(literal@, *encoded)),
{
    match encoded {
        EncodedTerm::BigStringLiteral { value_id } => {
            insert_literal_value(literal, value_id, store);
        },
        EncodedTerm::SmallBigLangStringLiteral { language_id, .. } => {
            insert_literal_language(literal, language_id, store);
        },
        EncodedTerm::BigSmallLangStringLiteral { value_id, .. } => {
            insert_literal_value(literal, value_id, store);
        },
        EncodedTerm::BigBigLangStringLiteral { value_id, language_id } => {
            insert_literal_value(literal, value_id, store);
            insert_literal_language(literal, language_id, store);
            proof {
                lemma_table_insert_all_concat(
                    old(store)@,
                    literal_value_ref(literal@, *value_id),
                    literal_language_ref(literal@, *language_id),
                );
            }
        },
        EncodedTerm::SmallTypedLiteral { datatype_id, .. } => {
            insert_literal_datatype(literal, datatype_id, store);
        },
        EncodedTerm::BigTypedLiteral { value_id, datatype_id } => {
            insert_literal_value(literal, value_id, store);
            insert_literal_datatype(literal, datatype_id, store);
            proof {
                lemma_table_insert_all_concat(
                    old(store)@,
                    literal_value_ref(literal@, *value_id),
                    seq![StrRef { hash: datatype_id.hash, text: literal@.datatype() }],
                );
            }
        },
        _ => {},
    }
}

/// Interns the texts that the encoding of a term refers to by identifier.
pub fn insert_term_values(term: &Term, encoded: &EncodedTerm, store: &mut StringStore)
    requires
        old(store).wf(),
    ensures
        final(store).wf(),
        final(store)@ == table_insert_all(old(store)@, term_strings(term@, *encoded)),
    decreases *term,
{
    match term {
        Term::NamedNode(node) => insert_named_node_values(node, encoded, store),
        Term::BlankNode(node) => insert_blank_node_values(node, encoded, store),
        Term::Literal(literal) => insert_literal_values(literal, encoded, store),
        Term::Triple(triple) => {
            if let EncodedTerm::Triple(encoded) = encoded {
                insert_triple_values(triple, encoded, store);
            }
        },
    }
}

/// Interns the texts that the encoding of a subject refers to by
/// identifier.
pub fn insert_subject_values(subject: &Subject, encoded: &EncodedTerm, store: &mut StringStore)
    requires
        old(store).wf(),
    ensures
        final(store).wf(),
        final(store)@ == table_insert_all(old(store)@, subject_strings(subject@, *encoded)),
    decreases *subject,
{
    match subject {
        Subject::NamedNode(node) => insert_named_node_values(node, encoded, store),
        Subject::BlankNode(node) => insert_blank_node_values(node, encoded, store),
        Subject::Triple(triple) => {
            if let EncodedTerm::Triple(encoded) = encoded {
                insert_triple_values(triple, encoded, store);
            }
        },
    }
}

/// Interns the texts that the encoding of a triple refers to by identifier.
pub fn insert_triple_values(triple: &Triple, encoded: &EncodedTriple, store: &mut StringStore)
    requires
        old(store).wf(),
    ensures
        final(store).wf(),
        final(store)@ == table_insert_all(old(store)@, triple_strings(triple@, *encoded)),
    decreases *triple,
{
    insert_subject_values(&triple.subject, &encoded.subject, store);
    insert_named_node_values(&triple.predicate, &encoded.predicate, store);
    insert_term_values(&triple.object, &encoded.object, store);
    proof {
        let a = subject_strings(triple@.subject, encoded.subject);
        let b = named_node_strings(triple@.predicate, encoded.predicate);
        let c = term_strings(triple@.object, encoded.object);
        lemma_table_insert_all_concat(old(store)@, a, b);
        lemma_table_insert_all_concat(old(store)@, a + b, c);
    }
}

fn remove_one(id: &StrHash, store: &mut StringStore)
    requires
        old(store).wf(),
    ensures
        final(store).wf(),
        final(store)@ == table_remove_all(old(store)@, seq![id.hash]),
{
    store.remove(id);
    proof {
        lemma_table_remove_one(old(store)@, id.hash);
    }
}

fn remove_two(first: &StrHash, second: &StrHash, store: &mut StringStore)
    requires
        old(store).wf(),
    ensures
        final(store).wf(),
        final(store)@ == table_remove_all(old(store)@, seq![first.hash, second.hash]),
{
    remove_one(first, store);
    remove_one(second, store);
    proof {
        lemma_table_remove_all_concat(old(store)@, seq![first.hash], seq![second.hash]);
        assert(seq![first.hash] + seq![second.hash] =~= seq![first.hash, second.hash]);
    }
}

/// Takes away the references that an encoded term holds.
pub fn remove_term_values(encoded: &EncodedTerm, store: &mut StringStore)
    requires
        old(store).wf(),
    ensures
        final(store).wf(),
        final(store)@ == table_remove_all(old(store)@, encoded_hashes(*encoded)),
    decreases *encoded,
{
    match encoded {
        EncodedTerm::NamedNode { iri_id } => remove_one(iri_id, store),
        EncodedTerm::BigBlankNode { id_id } => remove_one(id_id, store),
        EncodedTerm::BigStringLiteral { value_id } => remove_one(value_id, store),
        EncodedTerm::SmallBigLangStringLiteral { language_id, .. } => remove_one(
            language_id,
            store,
        ),
        EncodedTerm::BigSmallLangStringLiteral { value_id, .. } => remove_one(value_id, store),
        EncodedTerm::BigBigLangStringLiteral { value_id, language_id } => remove_two(
            value_id,
            language_id,
            store,
        ),
        EncodedTerm::SmallTypedLiteral { datatype_id, .. } => remove_one(datatype_id, store),
        EncodedTerm::BigTypedLiteral { value_id, datatype_id } => remove_two(
            value_id,
            datatype_id,
            store,
        ),
        EncodedTerm::Triple(triple) => {
            remove_term_values(&triple.subject, store);
            remove_term_values(&triple.predicate, store);
            remove_term_values(&triple.object, store);
            proof {
                let a = encoded_hashes(triple.subject);
                let b = encoded_hashes(triple.predicate);
                let c = encoded_hashes(triple.object);
                lemma_table_remove_all_concat(old(store)@, a, b);
                lemma_table_remove_all_concat(old(store)@, a + b, c);
            }
        },
        _ => {},
    }
}

} // verus!

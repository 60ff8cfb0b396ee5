//! `xsd:decimal`: a number of up to 18 digits behind the point, held as the
//! number of its quintillionths.

use crate::model::lexical::{
    ascii_string, ascii_text, digits_end, digits_in, is_ascii_bytes, is_digit_byte,
    lemma_digits_end_is, lemma_natural_bytes, lemma_number_of_bound, lemma_number_of_same,
    lemma_padded, lemma_pow10_grows, lemma_pow10_values, natural_bytes, number_of, padded, pow10,
    push_natural, push_padded, read_number, scan_digits, ten_to,
};
use vstd::prelude::*;
use vstd::string::StringSliceAdditionalSpecFns;
use vstd::utf8::encode_utf8;

verus! {

/// How many digits a decimal keeps behind the point.
pub const DECIMAL_PART_DIGITS: usize = 18;

/// One, in quintillionths.
pub const DECIMAL_PART: u128 = 1_000_000_000_000_000_000;

/// A decimal number: `value` quintillionths.
#[derive(Clone, Copy, Debug, PartialEq, Eq, Structural, Hash)]
pub struct Decimal {
    pub value: i128,
}

/// The place behind the last byte, from a place up to another, that is no
/// zero digit.
pub open spec fn trimmed_end(bytes: Seq<u8>, from: int, to: int) -> int
    decreases to - from,
{
    if from < to && bytes[to - 1] == 0x30 {
        trimmed_end(bytes, from, to - 1)
    } else {
        to
    }
}

/// The parts of the lexical form of a decimal: where its digits in front of
/// the point begin and end, and where those behind the point begin and end.
pub struct DecimalParts {
    pub negative: bool,
    pub start: int,
    pub int_end: int,
    pub frac_start: int,
    pub frac_end: int,
}

/// Cuts a text into the parts of a decimal: an optional sign, digits, and
/// behind an optional point more digits.
pub open spec fn decimal_parts(bytes: Seq<u8>) -> DecimalParts {
    let signed = bytes.len() > 0 && (bytes[0] == 0x2b || bytes[0] == 0x2d);
    let start = if signed {
        1int
    } else {
        0int
    };
    let int_end = digits_end(bytes, start);
    let frac_start = if int_end < bytes.len() && bytes[int_end] == 0x2e {
        int_end + 1
    } else {
        int_end
    };
    DecimalParts {
        negative: bytes.len() > 0 && bytes[0] == 0x2d,
        start,
        int_end,
        frac_start,
        frac_end: digits_end(bytes, frac_start),
    }
}

/// The decimal that a text denotes: the text has to be all of a sign, digits
/// and a point, with a digit at least, at most 18 digits behind the point but
/// for zeros at the end, and a value that fits.
pub open spec fn decimal_of(bytes: Seq<u8>) -> Option<Decimal> {
    let parts = decimal_parts(bytes);
    let used = trimmed_end(bytes, parts.frac_start, parts.frac_end);
    let magnitude = number_of(bytes, parts.start, parts.int_end) * pow10(18) + number_of(
        bytes,
        parts.frac_start,
        used,
    ) * pow10((18 - (used - parts.frac_start)) as nat);
    let value = if parts.negative {
        -(magnitude as int)
    } else {
        magnitude as int
    };
    if parts.frac_end != bytes.len() {
        None
    } else if parts.int_end - parts.start + (parts.frac_end - parts.frac_start) == 0 {
        None
    } else if used - parts.frac_start > 18 {
        None
    } else if i128::MIN <= value <= i128::MAX {
        Some(Decimal { value: value as i128 })
    } else {
        None
    }
}

/// Reads a decimal.
pub fn parse_decimal(text: &str) -> (r: Option<Decimal>)
    ensures
        r == decimal_of(encode_utf8(text@)),
{
    let bytes = text.as_bytes();
    let n = bytes.len();
    let signed = n > 0 && (bytes[0] == 0x2b || bytes[0] == 0x2d);
    let negative = n > 0 && bytes[0] == 0x2d;
    let start: usize = if signed {
        1
    } else {
        0
    };
    let int_end = scan_digits(bytes, start);
    let frac_start: usize = if int_end < n && bytes[int_end] == 0x2e {
        int_end + 1
    } else {
        int_end
    };
    let frac_end = scan_digits(bytes, frac_start);
    if frac_end != n {
        return None;
    }
    if (int_end - start) + (frac_end - frac_start) == 0 {
        return None;
    }
    let mut used: usize = frac_end;
    while used > frac_start && bytes[used - 1] == 0x30
        invariant
            frac_start <= used <= frac_end <= bytes@.len(),
            trimmed_end(bytes@, frac_start as int, frac_end as int) == trimmed_end(
                bytes@,
                frac_start as int,
                used as int,
            ),
        decreases used,
    {
        used -= 1;
    }
    if used - frac_start > 18 {
        return None;
    }
    let ghost whole = number_of(bytes@, start as int, int_end as int);
    let ghost part = number_of(bytes@, frac_start as int, used as int);
    let ghost scale_spec = pow10((18 - (used - frac_start)) as nat);
    proof {
        lemma_pow10_values();
        assert(digits_in(bytes@, frac_start as int, used as int));
        lemma_number_of_bound(bytes@, frac_start as int, used as int);
        lemma_pow10_grows((used - frac_start) as nat, 18);
        lemma_pow10_grows(0, (18 - (used - frac_start)) as nat);
        crate::model::lexical::lemma_pow10_add(
            (used - frac_start) as nat,
            (18 - (used - frac_start)) as nat,
        );
        assert(part * scale_spec < pow10(18)) by (nonlinear_arith)
            requires
                part < pow10((used - frac_start) as nat),
                pow10((used - frac_start) as nat) * scale_spec == pow10(18),
                scale_spec >= 1,
        ;
    }
    let int_part = match read_number(bytes, start, int_end, 170_141_183_460_469_231_732) {
        Some(value) => value,
        None => {
            proof {
                assert(whole * pow10(18) > i128::MAX + 1) by (nonlinear_arith)
                    requires
                        whole > 170_141_183_460_469_231_732,
                        pow10(18) == 1_000_000_000_000_000_000,
                ;
            }
            return None;
        },
    };
    let frac = match read_number(bytes, frac_start, used, 1_000_000_000_000_000_000) {
        Some(value) => value,
        None => { return None; },
    };
    let scale = ten_to(18 - (used - frac_start));
    proof {
        assert(int_part * 1_000_000_000_000_000_000 <= 170_141_183_460_469_231_732
            * 1_000_000_000_000_000_000) by (nonlinear_arith)
            requires
                int_part <= 170_141_183_460_469_231_732,
        ;
        assert(frac * scale < 1_000_000_000_000_000_000);
    }
    let magnitude: u128 = int_part * DECIMAL_PART + frac * scale;
    if negative {
        if magnitude > 170_141_183_460_469_231_731_687_303_715_884_105_728 {
            None
        } else if magnitude == 170_141_183_460_469_231_731_687_303_715_884_105_728 {
            Some(Decimal { value: i128::MIN })
        } else {
            Some(Decimal { value: -(magnitude as i128) })
        }
    } else {
        if magnitude > 170_141_183_460_469_231_731_687_303_715_884_105_727 {
            None
        } else {
            Some(Decimal { value: magnitude as i128 })
        }
    }
}

/// Some bytes without the zero digits at their end.
pub open spec fn without_trailing_zeros(bytes: Seq<u8>) -> Seq<u8>
    decreases bytes.len(),
{
    if bytes.len() > 0 && bytes.last() == 0x30 {
        without_trailing_zeros(bytes.drop_last())
    } else {
        bytes
    }
}

/// The magnitude of a decimal, in quintillionths.
pub open spec fn magnitude_of(d: Decimal) -> nat {
    if d.value < 0 {
        (-(d.value as int)) as nat
    } else {
        d.value as nat
    }
}

/// The canonical lexical form of a decimal: a minus sign where it is
/// negative, the digits in front of the point, and where there is something
/// behind the point, the point and the 18 digits behind it without the zeros
/// at their end.
pub open spec fn decimal_bytes(d: Decimal) -> Seq<u8> {
    let magnitude = magnitude_of(d);
    let sign = if d.value < 0 {
        seq![0x2du8]
    } else {
        Seq::<u8>::empty()
    };
    let whole = natural_bytes(magnitude / pow10(18));
    if magnitude % pow10(18) == 0 {
        sign + whole
    } else {
        sign + whole + seq![0x2eu8] + without_trailing_zeros(padded(magnitude % pow10(18), 18))
    }
}

/// Appends to `out` the digits of a fraction of 18 digits without the zeros
/// at their end.
pub fn push_fraction(out: &mut Vec<u8>, part: u128)
    ensures
        final(out)@ == old(out)@ + without_trailing_zeros(padded(part as nat, 18)),
{
    let ghost before = out@;
    push_padded(out, part, 18);
    let ghost digits = padded(part as nat, 18);
    proof {
        lemma_padded(part as nat, 18);
    }
    let floor = out.len() - 18;
    proof {
        assert(out@.skip(floor as int) =~= digits);
        assert(out@.take(floor as int) =~= before);
    }
    while out.len() > floor && out[out.len() - 1] == 0x30
        invariant
            floor == before.len(),
            floor <= out@.len() <= floor + 18,
            out@.take(floor as int) == before,
            without_trailing_zeros(digits) == without_trailing_zeros(out@.skip(floor as int)),
        decreases out@.len(),
    {
        let ghost current = out@;
        let _ = out.pop();
        proof {
            assert(out@.take(floor as int) =~= before);
            assert(out@.skip(floor as int) =~= current.skip(floor as int).drop_last());
            assert(current.skip(floor as int).last() == 0x30);
        }
    }
    proof {
        let rest = out@.skip(floor as int);
        assert(without_trailing_zeros(rest) == rest) by {
            if rest.len() > 0 {
                assert(rest.last() == out@[out@.len() - 1]);
            }
        }
        assert(out@ =~= before + rest);
    }
}

/// Writes a decimal into `out`.
pub fn push_decimal(out: &mut Vec<u8>, d: &Decimal)
    ensures
        final(out)@ == old(out)@ + decimal_bytes(*d),
{
    let ghost start = out@;
    proof {
        lemma_pow10_values();
    }
    let magnitude: u128 = if d.value < 0 {
        ((-(d.value + 1)) as u128) + 1
    } else {
        d.value as u128
    };
    if d.value < 0 {
        out.push(0x2d);
    }
    let whole: u128 = magnitude / DECIMAL_PART;
    let part: u128 = magnitude % DECIMAL_PART;
    push_natural(out, whole);
    if part != 0 {
        out.push(0x2e);
        push_fraction(out, part);
        proof {
            assert(out@ =~= start + decimal_bytes(*d));
        }
    } else {
        proof {
            assert(out@ =~= start + decimal_bytes(*d));
        }
    }
}

/// What is left of some digits without the zeros at their end: a prefix of
/// them that ends in no zero and denotes the same number but for a power of
/// ten.
pub proof fn lemma_without_trailing_zeros(bytes: Seq<u8>)
    requires
        digits_in(bytes, 0, bytes.len() as int),
    ensures
        ({
            let rest = without_trailing_zeros(bytes);
            &&& rest.len() <= bytes.len()
            &&& rest == bytes.take(rest.len() as int)
            &&& forall|i: int| rest.len() <= i < bytes.len() ==> bytes[i] == 0x30
            &&& rest.len() > 0 ==> rest.last() != 0x30
            &&& number_of(bytes, 0, bytes.len() as int) == number_of(rest, 0, rest.len() as int)
                * pow10((bytes.len() - rest.len()) as nat)
        }),
    decreases bytes.len(),
{
    let rest = without_trailing_zeros(bytes);
    if bytes.len() > 0 && bytes.last() == 0x30 {
        let front = bytes.drop_last();
        assert(digits_in(front, 0, front.len() as int)) by {
            assert forall|i: int| 0 <= i < front.len() implies is_digit_byte(
                #[trigger] front[i],
            ) by {
                assert(front[i] == bytes[i]);
            }
        }
        lemma_without_trailing_zeros(front);
        assert(rest == without_trailing_zeros(front));
        assert(rest =~= bytes.take(rest.len() as int)) by {
            assert(rest == front.take(rest.len() as int));
        }
        assert forall|i: int| rest.len() <= i < bytes.len() implies bytes[i] == 0x30 by {
            if i < front.len() {
                assert(front[i] == bytes[i]);
            }
        }
        lemma_number_of_same(front, bytes, 0, front.len() as int, 0);
        let k = (front.len() - rest.len()) as nat;
        let r = number_of(rest, 0, rest.len() as int);
        assert(pow10(k + 1) == 10 * pow10(k));
        assert(number_of(bytes, 0, bytes.len() as int) == number_of(
            bytes,
            0,
            bytes.len() - 1,
        ) * 10 + 0);
        assert(number_of(bytes, 0, bytes.len() - 1) == r * pow10(k));
        assert((r * pow10(k)) * 10 == r * (10 * pow10(k))) by (nonlinear_arith);
    } else {
        assert(rest == bytes);
        assert(rest =~= bytes.take(rest.len() as int));
        assert(pow10(0) == 1);
        let r = number_of(rest, 0, rest.len() as int);
        assert(r * 1 == r) by (nonlinear_arith);
    }
}

/// Reading the canonical lexical form of a decimal gives the decimal
/// back.
pub proof fn lemma_decimal_round_trip(d: Decimal)
    ensures
        decimal_of(decimal_bytes(d)) == Some(d),
        is_ascii_bytes(decimal_bytes(d)),
{
    lemma_pow10_values();
    let magnitude = magnitude_of(d);
    let whole = magnitude / pow10(18);
    let part = magnitude % pow10(18);
    let bytes = decimal_bytes(d);
    let w = natural_bytes(whole);
    let full = padded(part, 18);
    let f = without_trailing_zeros(full);
    lemma_natural_bytes(whole);
    lemma_padded(part, 18);
    lemma_without_trailing_zeros(full);
    let start: int = if d.value < 0 {
        1
    } else {
        0
    };
    let int_end = start + w.len();
    assert(w.len() >= 1) by {
        crate::model::lexical::lemma_digits_count(whole);
    }
    assert(forall|i: int| 0 <= i < w.len() ==> bytes[start + i] == #[trigger] w[i]);
    assert(digits_in(bytes, start, int_end)) by {
        assert forall|i: int| start <= i < int_end implies is_digit_byte(#[trigger] bytes[i]) by {
            assert(bytes[i] == w[i - start]);
        }
    }
    assert(is_digit_byte(bytes[start]));
    if part == 0 {
        assert(bytes.len() == int_end);
        lemma_digits_end_is(bytes, start, int_end);
        lemma_number_of_same(w, bytes, 0, w.len() as int, start);
        let parts = decimal_parts(bytes);
        assert(parts.start == start);
        assert(parts.int_end == int_end);
        assert(parts.frac_start == int_end);
        assert(parts.frac_end == int_end);
        assert(trimmed_end(bytes, int_end, int_end) == int_end);
        assert(number_of(bytes, int_end, int_end) == 0);
        assert(magnitude == whole * pow10(18)) by (nonlinear_arith)
            requires
                whole == magnitude / pow10(18),
                0 == magnitude % pow10(18),
                pow10(18) > 0,
        ;
        assert forall|i: int| 0 <= i < bytes.len() implies #[trigger] bytes[i] < 128 by {
            if i >= start {
                assert(is_digit_byte(bytes[i]));
            }
        }
    } else {
        assert(f.len() > 0) by {
            if f.len() == 0 {
                assert(number_of(f, 0, 0) == 0);
                assert(0 * pow10(18) == 0) by (nonlinear_arith);
            }
        }
        let frac_start = int_end + 1;
        let frac_end = frac_start + f.len();
        assert(bytes.len() == frac_end);
        assert(bytes[int_end] == 0x2e);
        assert(forall|i: int| 0 <= i < f.len() ==> bytes[frac_start + i] == #[trigger] f[i]);
        assert(forall|i: int| 0 <= i < f.len() ==> f[i] == full[i]) by {
            assert forall|i: int| 0 <= i < f.len() implies f[i] == full[i] by {
                assert(f[i] == full.take(f.len() as int)[i]);
            }
        }
        assert(digits_in(bytes, frac_start, frac_end)) by {
            assert forall|i: int| frac_start <= i < frac_end implies is_digit_byte(
                #[trigger] bytes[i],
            ) by {
                assert(bytes[i] == f[i - frac_start]);
                assert(is_digit_byte(full[i - frac_start]));
            }
        }
        assert(digits_in(f, 0, f.len() as int)) by {
            assert forall|i: int| 0 <= i < f.len() implies is_digit_byte(#[trigger] f[i]) by {
                assert(is_digit_byte(full[i]));
            }
        }
        lemma_digits_end_is(bytes, start, int_end);
        lemma_digits_end_is(bytes, frac_start, frac_end);
        lemma_number_of_same(w, bytes, 0, w.len() as int, start);
        lemma_number_of_same(f, bytes, 0, f.len() as int, frac_start);
        let parts = decimal_parts(bytes);
        assert(parts.start == start);
        assert(parts.int_end == int_end);
        assert(parts.frac_start == frac_start);
        assert(parts.frac_end == frac_end);
        assert(bytes[frac_end - 1] == f.last());
        assert(trimmed_end(bytes, frac_start, frac_end) == frac_end);
        assert(part % pow10(18) == part) by (nonlinear_arith)
            requires
                part == magnitude % pow10(18),
                pow10(18) > 0,
        ;
        assert(number_of(bytes, frac_start, frac_end) * pow10((18 - f.len()) as nat) == part);
        assert(magnitude == whole * pow10(18) + part) by (nonlinear_arith)
            requires
                whole == magnitude / pow10(18),
                part == magnitude % pow10(18),
                pow10(18) > 0,
        ;
        assert forall|i: int| 0 <= i < bytes.len() implies #[trigger] bytes[i] < 128 by {
            if start <= i < int_end {
                assert(is_digit_byte(bytes[i]));
            } else if i >= frac_start {
                assert(is_digit_byte(bytes[i]));
            }
        }
    }
}

/// The canonical lexical form of a decimal, as a text.
pub open spec fn decimal_text(d: Decimal) -> Seq<char> {
    ascii_text(decimal_bytes(d))
}

/// Writes a decimal.
pub fn format_decimal(d: &Decimal) -> (r: String)
    ensures
        r@ == decimal_text(*d),
        encode_utf8(r@) == decimal_bytes(*d),
{
    let mut out: Vec<u8> = Vec::new();
    push_decimal(&mut out, d);
    proof {
        lemma_decimal_round_trip(*d);
        assert(out@ =~= decimal_bytes(*d));
    }
    ascii_string(&out)
}

} // verus!

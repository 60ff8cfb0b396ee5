//! The lexical forms of the XSD values that the store keeps natively.

use crate::model::lexical::{digits_end, scan_digits};
use crate::text::str_eq;
use vstd::prelude::*;
use vstd::string::StringSliceAdditionalSpecFns;
use vstd::utf8::encode_utf8;

verus! {

/// The value of an `xsd:boolean` lexical form.
pub open spec fn boolean_of_text(text: Seq<char>) -> Option<bool> {
    if text == "true"@ || text == "1"@ {
        Some(true)
    } else if text == "false"@ || text == "0"@ {
        Some(false)
    } else {
        None
    }
}

/// The canonical lexical form of a boolean.
pub open spec fn boolean_text(value: bool) -> Seq<char> {
    if value {
        "true"@
    } else {
        "false"@
    }
}

/// Reads an `xsd:boolean`.
pub fn parse_boolean(text: &str) -> (r: Option<bool>)
    ensures
        r == boolean_of_text(text@),
{
    if str_eq(text, "true") || str_eq(text, "1") {
        Some(true)
    } else if str_eq(text, "false") || str_eq(text, "0") {
        Some(false)
    } else {
        None
    }
}

/// Writes a boolean.
pub fn format_boolean(value: bool) -> (r: String)
    ensures
        r@ == boolean_text(value),
{
    if value {
        "true".to_owned()
    } else {
        "false".to_owned()
    }
}

pub open spec fn is_digit(c: char) -> bool {
    '0' <= c <= '9'
}

pub open spec fn all_digits(text: Seq<char>) -> bool {
    forall|i: int| 0 <= i < text.len() ==> is_digit(#[trigger] text[i])
}

/// The number that a string of decimal digits denotes.
pub open spec fn digits_value(text: Seq<char>) -> nat
    decreases text.len(),
{
    if text.len() == 0 {
        0
    } else {
        digits_value(text.drop_last()) * 10 + (text.last() as nat - '0' as nat) as nat
    }
}

/// The value of a lexical form of a 64-bit integer: an optional sign, then
/// one or more digits, in range.
pub open spec fn integer_of_text(text: Seq<char>) -> Option<i64> {
    let negative = text.len() > 0 && text[0] == '-';
    let signed = text.len() > 0 && (text[0] == '-' || text[0] == '+');
    let digits = if signed {
        text.drop_first()
    } else {
        text
    };
    let magnitude = digits_value(digits) as int;
    let value = if negative {
        -magnitude
    } else {
        magnitude
    };
    if digits.len() == 0 || !all_digits(digits) {
        None
    } else if i64::MIN <= value <= i64::MAX {
        Some(value as i64)
    } else {
        None
    }
}

pub open spec fn digit_char(d: nat) -> char {
    ((0x30 + d) as u8) as char
}

/// The decimal writing of a natural number, without leading zeros.
pub open spec fn natural_text(n: nat) -> Seq<char>
    decreases n,
{
    if n < 10 {
        seq![digit_char(n)]
    } else {
        natural_text(n / 10).push(digit_char(n % 10))
    }
}

/// The decimal writing of an integer: a minus sign where it is negative,
/// then its magnitude.
pub open spec fn integer_text(value: int) -> Seq<char> {
    if value < 0 {
        seq!['-'] + natural_text((-value) as nat)
    } else {
        natural_text(value as nat)
    }
}

/// Reads a 64-bit integer with `str::parse`, which accepts an optional sign
/// followed by one or more decimal digits and refuses what does not fit.
#[verifier::external_body]
pub(crate) fn parse_integer(text: &str) -> (r: Option<i64>)
    ensures
        r == integer_of_text(text@),
{
    text.parse::<i64>().ok()
}

/// Writes a 64-bit integer with `to_string`: its decimal digits, after a
/// minus sign where it is negative.
#[verifier::external_body]
pub(crate) fn format_integer(value: i64) -> (r: String)
    ensures
        r@ == integer_text(value as int),
{
    value.to_string()
}

pub proof fn lemma_natural_text(n: nat)
    ensures
        natural_text(n).len() > 0,
        all_digits(natural_text(n)),
        digits_value(natural_text(n)) == n,
    decreases n,
{
    if n < 10 {
        let t = natural_text(n);
        assert(t.drop_last() =~= Seq::<char>::empty());
        assert(t.last() == digit_char(n));
        assert(digits_value(t.drop_last()) == 0);
    } else {
        lemma_natural_text(n / 10);
        let front = natural_text(n / 10);
        let t = front.push(digit_char(n % 10));
        assert(t.drop_last() =~= front);
        assert(t.last() == digit_char(n % 10));
        assert forall|i: int| 0 <= i < t.len() implies is_digit(#[trigger] t[i]) by {
            if i < front.len() {
                assert(t[i] == front[i]);
            }
        }
    }
}

/// Reading what was written for a 64-bit integer gives the integer back.
pub proof fn lemma_integer_round_trip(value: i64)
    ensures
        integer_of_text(integer_text(value as int)) == Some(value),
{
    if value < 0 {
        let n = (-(value as int)) as nat;
        lemma_natural_text(n);
        let text = seq!['-'] + natural_text(n);
        assert(text[0] == '-');
        assert(text.drop_first() =~= natural_text(n));
    } else {
        let n = value as nat;
        lemma_natural_text(n);
        let text = natural_text(n);
        assert(is_digit(text[0]));
    }
}

/// Whether a text is in the lexical space of `xsd:float` and `xsd:double`:
/// `NaN`, `INF` with an optional sign, or an optional sign, digits with an
/// optional point among them, one digit at least, and an optional exponent:
/// `e` or `E`, an optional sign and one digit at least.
pub open spec fn is_float_lexical(bytes: Seq<u8>) -> bool {
    let signed = bytes.len() > 0 && (bytes[0] == 0x2b || bytes[0] == 0x2d);
    let start = if signed {
        1int
    } else {
        0int
    };
    let int_end = digits_end(bytes, start);
    let frac_start = if int_end < bytes.len() && bytes[int_end] == 0x2e {
        int_end + 1
    } else {
        int_end
    };
    let frac_end = digits_end(bytes, frac_start);
    let has_exponent = frac_end < bytes.len() && (bytes[frac_end] == 0x65 || bytes[frac_end]
        == 0x45);
    let exponent_signed = has_exponent && frac_end + 1 < bytes.len() && (bytes[frac_end + 1]
        == 0x2b || bytes[frac_end + 1] == 0x2d);
    let exponent_start = if exponent_signed {
        frac_end + 2
    } else {
        frac_end + 1
    };
    let exponent_end = digits_end(bytes, exponent_start);
    if bytes == seq![0x4eu8, 0x61u8, 0x4eu8] {
        true
    } else if bytes.len() == start + 3 && bytes[start] == 0x49 && bytes[start + 1] == 0x4e
        && bytes[start + 2] == 0x46 {
        true
    } else if (int_end - start) + (frac_end - frac_start) == 0 {
        false
    } else if has_exponent {
        exponent_start < exponent_end && exponent_end == bytes.len()
    } else {
        frac_end == bytes.len()
    }
}

/// Whether a text is in the lexical space of `xsd:float` and `xsd:double`.
/// The value of such a text is a matter of floating point arithmetic, which
/// is left to the caller.
pub fn is_float_text(text: &str) -> (r: bool)
    ensures
        r == is_float_lexical(encode_utf8(text@)),
{
    let bytes = text.as_bytes();
    let n = bytes.len();
    let signed = n > 0 && (bytes[0] == 0x2b || bytes[0] == 0x2d);
    let start: usize = if signed {
        1
    } else {
        0
    };
    if n == 3 && bytes[0] == 0x4e && bytes[1] == 0x61 && bytes[2] == 0x4e {
        proof {
            assert(bytes@ =~= seq![0x4eu8, 0x61u8, 0x4eu8]);
        }
        return true;
    }
    proof {
        if bytes@ == seq![0x4eu8, 0x61u8, 0x4eu8] {
            assert(bytes@[0] == 0x4e && bytes@[1] == 0x61 && bytes@[2] == 0x4e);
        }
    }
    if n - start == 3 && bytes[start] == 0x49 && bytes[start + 1] == 0x4e && bytes[start + 2]
        == 0x46 {
        return true;
    }
    let int_end = scan_digits(bytes, start);
    let frac_start: usize = if int_end < n && bytes[int_end] == 0x2e {
        int_end + 1
    } else {
        int_end
    };
    let frac_end = scan_digits(bytes, frac_start);
    if (int_end - start) + (frac_end - frac_start) == 0 {
        return false;
    }
    if frac_end < n && (bytes[frac_end] == 0x65 || bytes[frac_end] == 0x45) {
        let exponent_signed = n - frac_end > 1 && (bytes[frac_end + 1] == 0x2b || bytes[frac_end
            + 1] == 0x2d);
        let exponent_start: usize = if exponent_signed {
            frac_end + 2
        } else {
            frac_end + 1
        };
        let exponent_end = scan_digits(bytes, exponent_start);
        exponent_start < exponent_end && exponent_end == n
    } else {
        frac_end == n
    }
}

} // verus!

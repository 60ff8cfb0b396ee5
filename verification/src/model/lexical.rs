//! Reading and writing numbers in texts, byte by byte.

use crate::storage::small_string::string_from_utf8;
use vstd::prelude::*;
use vstd::utf8::{decode_utf8, encode_utf8, valid_utf8};

verus! {

pub open spec fn is_digit_byte(b: u8) -> bool {
    0x30 <= b <= 0x39
}

pub open spec fn digit_of(b: u8) -> nat {
    (b - 0x30) as nat
}

/// 10 to the power `n`.
pub open spec fn pow10(n: nat) -> nat
    decreases n,
{
    if n == 0 {
        1
    } else {
        10 * pow10((n - 1) as nat)
    }
}

/// The number that the digits from a place up to another denote.
pub open spec fn number_of(bytes: Seq<u8>, from: int, to: int) -> nat
    decreases to - from,
{
    if to <= from {
        0
    } else {
        number_of(bytes, from, to - 1) * 10 + digit_of(bytes[to - 1])
    }
}

/// Whether the bytes from a place up to another are digits.
pub open spec fn digits_in(bytes: Seq<u8>, from: int, to: int) -> bool {
    &&& 0 <= from <= to <= bytes.len()
    &&& forall|i: int| from <= i < to ==> is_digit_byte(#[trigger] bytes[i])
}

/// The place behind the digits that stand from a place on.
pub open spec fn digits_end(bytes: Seq<u8>, at: int) -> int
    decreases bytes.len() - at,
{
    if 0 <= at < bytes.len() && is_digit_byte(bytes[at]) {
        digits_end(bytes, at + 1)
    } else {
        at
    }
}

pub proof fn lemma_digits_end(bytes: Seq<u8>, at: int)
    requires
        0 <= at <= bytes.len(),
    ensures
        at <= digits_end(bytes, at) <= bytes.len(),
        digits_in(bytes, at, digits_end(bytes, at)),
        digits_end(bytes, at) < bytes.len() ==> !is_digit_byte(bytes[digits_end(bytes, at)]),
    decreases bytes.len() - at,
{
    if at < bytes.len() && is_digit_byte(bytes[at]) {
        lemma_digits_end(bytes, at + 1);
    }
}

/// The digits that stand from a place on end where the first byte stands
/// that is no digit.
pub proof fn lemma_digits_end_is(bytes: Seq<u8>, at: int, end: int)
    requires
        digits_in(bytes, at, end),
        end == bytes.len() || !is_digit_byte(bytes[end]),
    ensures
        digits_end(bytes, at) == end,
    decreases end - at,
{
    if at < end {
        assert(is_digit_byte(bytes[at]));
        lemma_digits_end_is(bytes, at + 1, end);
    }
}

pub proof fn lemma_number_of_bound(bytes: Seq<u8>, from: int, to: int)
    requires
        digits_in(bytes, from, to),
    ensures
        number_of(bytes, from, to) < pow10((to - from) as nat),
    decreases to - from,
{
    if from < to {
        lemma_number_of_bound(bytes, from, to - 1);
        assert(is_digit_byte(bytes[to - 1]));
        assert(pow10((to - from) as nat) == 10 * pow10((to - 1 - from) as nat));
    }
}

pub proof fn lemma_number_of_grows(bytes: Seq<u8>, from: int, middle: int, to: int)
    requires
        from <= middle <= to,
    ensures
        number_of(bytes, from, middle) <= number_of(bytes, from, to),
    decreases to - middle,
{
    if middle < to {
        lemma_number_of_grows(bytes, from, middle, to - 1);
    }
}

/// Numbers are read alike in texts that hold the same bytes at the places
/// that are read.
pub proof fn lemma_number_of_same(a: Seq<u8>, b: Seq<u8>, from: int, to: int, shift: int)
    requires
        0 <= from <= to <= a.len(),
        0 <= from + shift,
        to + shift <= b.len(),
        forall|i: int| from <= i < to ==> a[i] == #[trigger] b[i + shift],
    ensures
        number_of(a, from, to) == number_of(b, from + shift, to + shift),
    decreases to - from,
{
    if from < to {
        lemma_number_of_same(a, b, from, to - 1, shift);
        assert(a[to - 1] == b[to - 1 + shift]);
    }
}

pub proof fn lemma_pow10_values()
    ensures
        pow10(0) == 1,
        pow10(1) == 10,
        pow10(2) == 100,
        pow10(3) == 1000,
        pow10(4) == 10000,
        pow10(9) == 1_000_000_000,
        pow10(18) == 1_000_000_000_000_000_000,
        pow10(19) == 10_000_000_000_000_000_000,
        pow10(20) == 100_000_000_000_000_000_000,
{
    reveal_with_fuel(pow10, 21);
}

pub proof fn lemma_pow10_grows(a: nat, b: nat)
    requires
        a <= b,
    ensures
        pow10(a) <= pow10(b),
        pow10(a) >= 1,
    decreases b,
{
    if a < b {
        lemma_pow10_grows(a, (b - 1) as nat);
    } else if a > 0 {
        lemma_pow10_grows((a - 1) as nat, (a - 1) as nat);
    }
}

pub proof fn lemma_pow10_add(a: nat, b: nat)
    ensures
        pow10(a + b) == pow10(a) * pow10(b),
    decreases a,
{
    if a > 0 {
        lemma_pow10_add((a - 1) as nat, b);
        assert(pow10(a + b) == 10 * pow10((a - 1 + b) as nat));
        assert(10 * (pow10((a - 1) as nat) * pow10(b)) == (10 * pow10((a - 1) as nat)) * pow10(b))
            by (nonlinear_arith);
    } else {
        assert(pow10(0) == 1);
        assert(1 * pow10(b) == pow10(b));
    }
}

/// The place behind the digits that stand from a place on.
pub fn scan_digits(bytes: &[u8], at: usize) -> (r: usize)
    requires
        at <= bytes@.len(),
    ensures
        r == digits_end(bytes@, at as int),
        at <= r <= bytes@.len(),
        digits_in(bytes@, at as int, r as int),
{
    let mut end: usize = at;
    while end < bytes.len() && bytes[end] >= 0x30 && bytes[end] <= 0x39
        invariant
            at <= end <= bytes@.len(),
            digits_end(bytes@, at as int) == digits_end(bytes@, end as int),
            digits_in(bytes@, at as int, end as int),
        decreases bytes@.len() - end,
    {
        end += 1;
    }
    end
}

/// Reads the number that the digits from a place up to another denote, if it
/// is not above a limit.
pub fn read_number(bytes: &[u8], from: usize, to: usize, limit: u128) -> (r: Option<u128>)
    requires
        digits_in(bytes@, from as int, to as int),
    ensures
        r == if number_of(bytes@, from as int, to as int) <= limit {
            Some(number_of(bytes@, from as int, to as int) as u128)
        } else {
            None
        },
{
    let mut value: u128 = 0;
    let mut i: usize = from;
    while i < to
        invariant
            from <= i <= to <= bytes@.len(),
            digits_in(bytes@, from as int, to as int),
            value == number_of(bytes@, from as int, i as int),
            value <= limit,
        decreases to - i,
    {
        let digit: u128 = (bytes[i] - 0x30) as u128;
        proof {
            assert(is_digit_byte(bytes@[i as int]));
            lemma_number_of_grows(bytes@, from as int, i as int + 1, to as int);
        }
        if value > u128::MAX / 10 {
            return None;
        }
        let shifted: u128 = value * 10;
        if shifted > u128::MAX - digit {
            return None;
        }
        let next: u128 = shifted + digit;
        if next > limit {
            return None;
        }
        value = next;
        i += 1;
    }
    Some(value)
}

/// The digits of a number, as many as a width asks for, with zeros in
/// front: the number modulo 10 to the width.
pub open spec fn padded(n: nat, width: nat) -> Seq<u8>
    decreases width,
{
    if width == 0 {
        Seq::empty()
    } else {
        padded(n / 10, (width - 1) as nat).push((0x30 + n % 10) as u8)
    }
}

/// How many digits a number has: one for zero.
pub open spec fn digits_count(n: nat) -> nat
    decreases n,
{
    if n < 10 {
        1
    } else {
        1 + digits_count(n / 10)
    }
}

/// The digits of a number, without zeros in front.
pub open spec fn natural_bytes(n: nat) -> Seq<u8> {
    padded(n, digits_count(n))
}

pub proof fn lemma_padded(n: nat, width: nat)
    ensures
        padded(n, width).len() == width,
        digits_in(padded(n, width), 0, width as int),
        number_of(padded(n, width), 0, width as int) == n % pow10(width),
    decreases width,
{
    if width > 0 {
        lemma_padded(n / 10, (width - 1) as nat);
        let front = padded(n / 10, (width - 1) as nat);
        let all = padded(n, width);
        assert(all.len() == width);
        assert forall|i: int| 0 <= i < width implies is_digit_byte(#[trigger] all[i]) by {
            if i < width - 1 {
                assert(all[i] == front[i]);
            }
        }
        lemma_number_of_same(front, all, 0, width - 1, 0);
        assert(digit_of(all[width - 1]) == n % 10);
        let p = pow10((width - 1) as nat);
        lemma_pow10_grows(0, (width - 1) as nat);
        assert(pow10(width) == 10 * p);
        vstd::arithmetic::div_mod::lemma_breakdown(n as int, 10, p as int);
    } else {
        assert(pow10(0) == 1);
    }
}

pub proof fn lemma_digits_count(n: nat)
    ensures
        digits_count(n) >= 1,
        n < pow10(digits_count(n)),
        n >= 10 ==> n >= pow10((digits_count(n) - 1) as nat),
    decreases n,
{
    if n >= 10 {
        lemma_digits_count(n / 10);
        let c = digits_count(n / 10);
        assert(pow10(c + 1) == 10 * pow10(c));
        assert(pow10(c) == 10 * pow10((c - 1) as nat));
    } else {
        lemma_pow10_values();
    }
}

/// The digits of a number denote the number, and the first is no zero but
/// for the number zero.
pub proof fn lemma_natural_bytes(n: nat)
    ensures
        natural_bytes(n).len() == digits_count(n),
        digits_in(natural_bytes(n), 0, digits_count(n) as int),
        number_of(natural_bytes(n), 0, digits_count(n) as int) == n,
{
    lemma_padded(n, digits_count(n));
    lemma_digits_count(n);
    assert(n % pow10(digits_count(n)) == n) by (nonlinear_arith)
        requires
            n < pow10(digits_count(n)),
    ;
}

/// Appends to `out` the digits of a number, as many as a width asks for.
pub fn push_padded(out: &mut Vec<u8>, n: u128, width: usize)
    requires
        width <= 40,
    ensures
        final(out)@ == old(out)@ + padded(n as nat, width as nat),
{
    let mut digits: [u8; 40] = [0x30u8; 40];
    let mut rest: u128 = n;
    let mut i: usize = width;
    let ghost mut made: Seq<u8> = Seq::empty();
    while i > 0
        invariant
            i <= width <= 40,
            made.len() == width - i,
            forall|k: int| 0 <= k < made.len() ==> made[k] == digits@[i + k],
            padded(n as nat, width as nat) == padded(rest as nat, i as nat) + made,
        decreases i,
    {
        let digit: u8 = (rest % 10) as u8 + 0x30;
        digits[i - 1] = digit;
        proof {
            let before = made;
            made = seq![digit] + before;
            assert(padded(rest as nat, i as nat) == padded((rest / 10) as nat, (i - 1) as nat).push(
                digit,
            ));
            assert(padded((rest / 10) as nat, (i - 1) as nat).push(digit) + before =~= padded(
                (rest / 10) as nat,
                (i - 1) as nat,
            ) + made);
        }
        rest = rest / 10;
        i -= 1;
    }
    proof {
        assert(padded(rest as nat, 0) =~= Seq::<u8>::empty());
        assert(padded(n as nat, width as nat) =~= made);
    }
    let ghost start = out@;
    let mut k: usize = 0;
    while k < width
        invariant
            k <= width <= 40,
            made.len() == width,
            forall|j: int| 0 <= j < width ==> made[j] == digits@[j],
            out@ == start + made.take(k as int),
        decreases width - k,
    {
        out.push(digits[k]);
        proof {
            assert(out@ =~= start + made.take(k as int + 1));
        }
        k += 1;
    }
    proof {
        assert(made.take(width as int) =~= made);
    }
}

/// How many digits a number has.
pub fn count_digits(n: u128) -> (r: usize)
    ensures
        r == digits_count(n as nat),
        1 <= r <= 39,
{
    let mut count: usize = 1;
    let mut rest: u128 = n;
    proof {
        lemma_digits_count(n as nat);
        lemma_pow39();
    }
    while rest >= 10
        invariant
            digits_count(n as nat) == digits_count(rest as nat) + count - 1,
            1 <= count,
            count + digits_count(rest as nat) - 1 <= 39,
        decreases rest,
    {
        rest = rest / 10;
        count += 1;
    }
    count
}

proof fn lemma_pow39()
    ensures
        forall|n: nat| n <= u128::MAX ==> #[trigger] digits_count(n) <= 39,
{
    reveal_with_fuel(pow10, 40);
    assert(pow10(39) == 1_000_000_000_000_000_000_000_000_000_000_000_000_000);
    assert forall|n: nat| n <= u128::MAX implies #[trigger] digits_count(n) <= 39 by {
        lemma_digits_count(n);
        if digits_count(n) > 39 {
            lemma_pow10_grows(39, (digits_count(n) - 1) as nat);
        }
    }
}

/// Appends to `out` the digits of a number, without zeros in front.
pub fn push_natural(out: &mut Vec<u8>, n: u128)
    ensures
        final(out)@ == old(out)@ + natural_bytes(n as nat),
{
    let width = count_digits(n);
    push_padded(out, n, width);
}

/// Whether every byte is below 128.
pub open spec fn is_ascii_bytes(bytes: Seq<u8>) -> bool {
    forall|i: int| 0 <= i < bytes.len() ==> #[trigger] bytes[i] < 128
}

/// The characters of some bytes below 128, one for one.
pub open spec fn ascii_text(bytes: Seq<u8>) -> Seq<char> {
    Seq::new(bytes.len(), |i: int| bytes[i] as char)
}

/// The text of some bytes below 128 is encoded by these bytes.
pub proof fn lemma_ascii_text(bytes: Seq<u8>)
    requires
        is_ascii_bytes(bytes),
    ensures
        encode_utf8(ascii_text(bytes)) == bytes,
        valid_utf8(bytes),
        decode_utf8(bytes) == ascii_text(bytes),
{
    let chars = ascii_text(bytes);
    assert(vstd::utf8::is_ascii_chars(chars)) by {
        assert forall|i: int| 0 <= i < chars.len() implies 0 <= #[trigger] (chars[i] as nat)
            < 128 by {
            assert(chars[i] == bytes[i] as char);
        }
    }
    vstd::utf8::is_ascii_chars_encode_utf8(chars);
    assert(encode_utf8(chars) =~= bytes) by {
        assert forall|i: int| 0 <= i < bytes.len() implies encode_utf8(chars)[i] == bytes[i] by {
            assert(chars[i] == bytes[i] as char);
        }
    }
    vstd::utf8::encode_utf8_valid_utf8(chars);
    vstd::utf8::encode_utf8_decode_utf8(chars);
}

/// The text of some bytes below 128.
pub fn ascii_string(bytes: &Vec<u8>) -> (r: String)
    requires
        is_ascii_bytes(bytes@),
    ensures
        r@ == ascii_text(bytes@),
        encode_utf8(r@) == bytes@,
{
    proof {
        lemma_ascii_text(bytes@);
    }
    match string_from_utf8(bytes.as_slice()) {
        Some(text) => text,
        None => String::new(),
    }
}

/// The power of ten with an exponent of at most 18.
pub fn ten_to(n: usize) -> (r: u128)
    requires
        n <= 18,
    ensures
        r == pow10(n as nat),
        1 <= r <= 1_000_000_000_000_000_000,
{
    let mut r: u128 = 1;
    let mut i: usize = 0;
    proof {
        lemma_pow10_values();
    }
    while i < n
        invariant
            i <= n <= 18,
            r == pow10(i as nat),
            pow10(18) == 1_000_000_000_000_000_000,
        decreases n - i,
    {
        proof {
            lemma_pow10_grows((i + 1) as nat, 18);
        }
        r = r * 10;
        i += 1;
    }
    proof {
        lemma_pow10_grows(n as nat, 18);
        lemma_pow10_grows(0, n as nat);
    }
    r
}

/// Appends a byte to `out`.
pub fn push_byte(out: &mut Vec<u8>, value: u8)
    ensures
        final(out)@ == old(out)@ + seq![value],
{
    out.push(value);
    proof {
        assert(out@ =~= old(out)@ + seq![value]);
    }
}

} // verus!

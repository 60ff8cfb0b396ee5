//! Numbers as bytes, most significant first.

use crate::storage::numeric_encoder::{be_bytes_value, pow256};
use vstd::prelude::*;

verus! {

/// The bytes of a number, as many as a width asks for, most significant
/// first: the number modulo 256 to the width.
pub open spec fn be_bytes(value: nat, width: nat) -> Seq<u8>
    decreases width,
{
    if width == 0 {
        Seq::empty()
    } else {
        be_bytes(value / 256, (width - 1) as nat).push((value % 256) as u8)
    }
}

pub proof fn lemma_pow256_values()
    ensures
        pow256(0) == 1,
        pow256(1) == 0x100,
        pow256(2) == 0x1_0000,
        pow256(4) == 0x1_0000_0000,
        pow256(8) == 0x1_0000_0000_0000_0000,
        pow256(16) == 0x1_0000_0000_0000_0000_0000_0000_0000_0000,
{
    reveal_with_fuel(pow256, 17);
}

/// The bytes of a number denote the number, where it is below 256 to the
/// width.
pub proof fn lemma_be_bytes(value: nat, width: nat)
    ensures
        be_bytes(value, width).len() == width,
        be_bytes_value(be_bytes(value, width)) == value % pow256(width),
    decreases width,
{
    if width > 0 {
        lemma_be_bytes(value / 256, (width - 1) as nat);
        let all = be_bytes(value, width);
        let front = be_bytes(value / 256, (width - 1) as nat);
        assert(all.drop_last() =~= front);
        assert(all.last() == (value % 256) as u8);
        let p = pow256((width - 1) as nat);
        crate::storage::numeric_encoder::lemma_pow256_monotone(0, (width - 1) as nat);
        assert(pow256(width) == 256 * p);
        vstd::arithmetic::div_mod::lemma_breakdown(value as int, 256, p as int);
    } else {
        assert(pow256(0) == 1);
    }
}

/// The bytes of the number that some bytes denote are these bytes.
pub proof fn lemma_be_bytes_of_value(bytes: Seq<u8>)
    ensures
        be_bytes(be_bytes_value(bytes), bytes.len()) == bytes,
    decreases bytes.len(),
{
    if bytes.len() > 0 {
        let front = bytes.drop_last();
        lemma_be_bytes_of_value(front);
        let value = be_bytes_value(bytes);
        assert(value == be_bytes_value(front) * 256 + bytes.last() as nat);
        assert(value / 256 == be_bytes_value(front) && value % 256 == bytes.last() as nat) by (
        nonlinear_arith)
            requires
                value == be_bytes_value(front) * 256 + bytes.last() as nat,
                bytes.last() < 256,
        ;
        assert(be_bytes(value, bytes.len()) =~= bytes);
    } else {
        assert(be_bytes(0, 0) =~= bytes);
    }
}

/// Appends to `out` the bytes of a number, as many as a width asks for.
pub fn write_be(out: &mut Vec<u8>, value: u128, width: usize)
    requires
        width <= 16,
    ensures
        final(out)@ == old(out)@ + be_bytes(value as nat, width as nat),
{
    let mut bytes: [u8; 16] = [0u8; 16];
    let mut rest: u128 = value;
    let mut i: usize = width;
    let ghost mut made: Seq<u8> = Seq::empty();
    while i > 0
        invariant
            i <= width <= 16,
            made.len() == width - i,
            forall|k: int| 0 <= k < made.len() ==> made[k] == bytes@[i + k],
            be_bytes(value as nat, width as nat) == be_bytes(rest as nat, i as nat) + made,
        decreases i,
    {
        let low: u8 = (rest % 256) as u8;
        bytes[i - 1] = low;
        proof {
            let before = made;
            made = seq![low] + before;
            assert(be_bytes(rest as nat, i as nat) == be_bytes(
                (rest / 256) as nat,
                (i - 1) as nat,
            ).push(low));
            assert(be_bytes((rest / 256) as nat, (i - 1) as nat).push(low) + before =~= be_bytes(
                (rest / 256) as nat,
                (i - 1) as nat,
            ) + made);
        }
        rest = rest / 256;
        i -= 1;
    }
    proof {
        assert(be_bytes(rest as nat, 0) =~= Seq::<u8>::empty());
        assert(be_bytes(value as nat, width as nat) =~= made);
    }
    let ghost start = out@;
    let mut k: usize = 0;
    while k < width
        invariant
            k <= width <= 16,
            made.len() == width,
            forall|j: int| 0 <= j < width ==> made[j] == bytes@[j],
            out@ == start + made.take(k as int),
        decreases width - k,
    {
        out.push(bytes[k]);
        proof {
            assert(out@ =~= start + made.take(k as int + 1));
        }
        k += 1;
    }
    proof {
        assert(made.take(width as int) =~= made);
    }
}

/// Reads the number that the bytes from a place on denote, as many as a
/// width asks for.
pub fn read_be(bytes: &[u8], at: usize, width: usize) -> (r: u128)
    requires
        width <= 16,
        at + width <= bytes@.len(),
    ensures
        r == be_bytes_value(bytes@.subrange(at as int, at + width)),
        (r as nat) < pow256(width as nat),
{
    let mut acc: u128 = 0;
    let mut i: usize = 0;
    let n = bytes.len();
    let ghost part = bytes@.subrange(at as int, at + width);
    proof {
        assert(part.take(0) =~= Seq::<u8>::empty());
        lemma_pow256_values();
    }
    while i < width
        invariant
            i <= width <= 16,
            n == bytes@.len(),
            at + width <= n,
            part == bytes@.subrange(at as int, at + width),
            acc as nat == be_bytes_value(part.take(i as int)),
            (acc as nat) < pow256(i as nat),
            pow256(16) == 0x1_0000_0000_0000_0000_0000_0000_0000_0000,
        decreases width - i,
    {
        proof {
            let next = part.take(i as int + 1);
            assert(next.drop_last() =~= part.take(i as int));
            assert(next.last() == bytes@[at + i]);
            crate::storage::numeric_encoder::lemma_pow256_monotone((i + 1) as nat, 16);
            assert(pow256((i + 1) as nat) == 256 * pow256(i as nat));
            let p = pow256(i as nat);
            let a = acc as nat;
            assert(a * 256 + 255 < 256 * p) by (nonlinear_arith)
                requires
                    a < p,
            ;
            assert(a * 256 + 255 < pow256(16));
        }
        acc = acc * 256 + bytes[at + i] as u128;
        i += 1;
    }
    proof {
        assert(part.take(width as int) =~= part);
    }
    acc
}

/// The number that stands for a signed number of 64 bits among the
/// unsigned: itself, or itself and 2 to the 64 where it is negative.
pub open spec fn unsigned_of_i64(value: i64) -> nat {
    if value < 0 {
        (value + 0x1_0000_0000_0000_0000) as nat
    } else {
        value as nat
    }
}

/// The signed number of 64 bits that an unsigned one stands for.
pub open spec fn i64_of_unsigned(value: nat) -> i64 {
    if value >= 0x8000_0000_0000_0000 {
        (value - 0x1_0000_0000_0000_0000) as i64
    } else {
        value as i64
    }
}

/// The number that stands for a signed number of 128 bits among the
/// unsigned.
pub open spec fn unsigned_of_i128(value: i128) -> nat {
    if value < 0 {
        (value + 0x1_0000_0000_0000_0000_0000_0000_0000_0000) as nat
    } else {
        value as nat
    }
}

/// The signed number of 128 bits that an unsigned one stands for.
pub open spec fn i128_of_unsigned(value: nat) -> i128 {
    if value >= 0x8000_0000_0000_0000_0000_0000_0000_0000 {
        (value - 0x1_0000_0000_0000_0000_0000_0000_0000_0000) as i128
    } else {
        value as i128
    }
}

/// The number that stands for a signed number of 16 bits among the
/// unsigned.
pub open spec fn unsigned_of_i16(value: i16) -> nat {
    if value < 0 {
        (value + 0x1_0000) as nat
    } else {
        value as nat
    }
}

/// The signed number of 16 bits that an unsigned one stands for.
pub open spec fn i16_of_unsigned(value: nat) -> i16 {
    if value >= 0x8000 {
        (value - 0x1_0000) as i16
    } else {
        value as i16
    }
}

pub fn i64_to_unsigned(value: i64) -> (r: u64)
    ensures
        r == unsigned_of_i64(value),
        i64_of_unsigned(r as nat) == value,
{
    if value < 0 {
        u64::MAX - ((-(value + 1)) as u64)
    } else {
        value as u64
    }
}

pub fn unsigned_to_i64(value: u64) -> (r: i64)
    ensures
        r == i64_of_unsigned(value as nat),
{
    if value >= 0x8000_0000_0000_0000 {
        -((u64::MAX - value) as i64) - 1
    } else {
        value as i64
    }
}

pub fn i128_to_unsigned(value: i128) -> (r: u128)
    ensures
        r == unsigned_of_i128(value),
        i128_of_unsigned(r as nat) == value,
{
    if value < 0 {
        u128::MAX - ((-(value + 1)) as u128)
    } else {
        value as u128
    }
}

pub fn unsigned_to_i128(value: u128) -> (r: i128)
    ensures
        r == i128_of_unsigned(value as nat),
{
    if value >= 0x8000_0000_0000_0000_0000_0000_0000_0000 {
        -((u128::MAX - value) as i128) - 1
    } else {
        value as i128
    }
}

pub fn i16_to_unsigned(value: i16) -> (r: u16)
    ensures
        r == unsigned_of_i16(value),
        i16_of_unsigned(r as nat) == value,
{
    if value < 0 {
        u16::MAX - ((-(value + 1)) as u16)
    } else {
        value as u16
    }
}

pub fn unsigned_to_i16(value: u16) -> (r: i16)
    ensures
        r == i16_of_unsigned(value as nat),
{
    if value >= 0x8000 {
        -((u16::MAX - value) as i16) - 1
    } else {
        value as i16
    }
}

} // verus!

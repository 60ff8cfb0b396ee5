//! Strings of at most 16 bytes, held inline.

use vstd::prelude::*;
use vstd::slice::slice_subrange;
use vstd::std_specs::cmp::PartialEqSpecImpl;
use vstd::string::StringSliceAdditionalSpecFns;
use vstd::utf8::{decode_utf8, encode_utf8, valid_utf8};

verus! {

/// The greatest number of bytes that a string held inline may have.
pub const SMALL_STRING_CAPACITY: usize = 16;

/// A string of at most 16 bytes of UTF-8, held inline: a length and a
/// buffer whose unused tail is zero, so that equal strings are equal values.
#[derive(Clone, Copy, Debug, Eq, Hash)]
pub struct SmallString {
    len: u8,
    bytes: [u8; 16],
}

impl View for SmallString {
    type V = Seq<char>;

    closed spec fn view(&self) -> Seq<char> {
        decode_utf8(self.bytes@.take(self.len as int))
    }
}

/// Decodes a byte string with `std::str::from_utf8` and copies the text:
/// `Some` exactly for well-formed UTF-8, and then the text that the bytes
/// encode.
#[verifier::external_body]
pub(crate) fn string_from_utf8(bytes: &[u8]) -> (r: Option<String>)
    ensures
        r is Some <==> valid_utf8(bytes@),
        r matches Some(s) ==> s@ == decode_utf8(bytes@),
{
    match std::str::from_utf8(bytes) {
        Ok(text) => Some(text.to_owned()),
        Err(_) => None,
    }
}

/// Whether a text is short enough to be held inline.
pub open spec fn fits_inline(text: Seq<char>) -> bool {
    encode_utf8(text).len() <= 16
}

/// A buffer whose first `n` bytes are those of `bytes` and whose others are
/// zero.
pub closed spec fn buffer_of(bytes: Seq<u8>, n: nat) -> [u8; 16]
    decreases n,
{
    if n == 0 {
        vstd::array::spec_array_fill_for_copy_type(0u8)
    } else {
        vstd::array::spec_array_update(
            buffer_of(bytes, (n - 1) as nat),
            n - 1,
            bytes[n - 1],
        )
    }
}

proof fn lemma_buffer_of(bytes: Seq<u8>, n: nat)
    requires
        n <= bytes.len(),
        n <= 16,
    ensures
        forall|i: int| 0 <= i < n ==> buffer_of(bytes, n)@[i] == bytes[i],
        forall|i: int| n <= i < 16 ==> buffer_of(bytes, n)@[i] == 0,
    decreases n,
{
    broadcast use vstd::array::group_array_axioms;

    if n > 0 {
        lemma_buffer_of(bytes, (n - 1) as nat);
        let before = buffer_of(bytes, (n - 1) as nat);
        vstd::array::axiom_spec_array_update(before, n - 1, bytes[n - 1]);
        assert(buffer_of(bytes, n)@ == before@.update(n - 1, bytes[n - 1]));
    } else {
        vstd::array::axiom_spec_array_fill_for_copy_type::<u8, 16>(0u8);
        assert(buffer_of(bytes, 0) == vstd::array::spec_array_fill_for_copy_type::<u8, 16>(0u8));
    }
}

/// The inline string of a text that fits.
pub closed spec fn small_string_of(text: Seq<char>) -> SmallString {
    SmallString {
        len: encode_utf8(text).len() as u8,
        bytes: buffer_of(encode_utf8(text), encode_utf8(text).len()),
    }
}

/// The inline string of a text that fits is well formed and holds the text.
pub proof fn lemma_small_string_of(text: Seq<char>)
    requires
        fits_inline(text),
    ensures
        small_string_of(text).wf(),
        small_string_of(text)@ == text,
        small_string_of(text).spec_bytes() == encode_utf8(text),
{
    let bytes = encode_utf8(text);
    lemma_buffer_of(bytes, bytes.len());
    let s = small_string_of(text);
    assert(s.bytes@.take(s.len as int) =~= bytes);
    vstd::utf8::encode_utf8_valid_utf8(text);
    vstd::utf8::encode_utf8_decode_utf8(text);
}

impl SmallString {
    /// Holds of every value: the length fits, the used bytes are UTF-8 and
    /// the unused ones are zero.
    #[verifier::type_invariant]
    pub closed spec fn wf(self) -> bool {
        &&& self.len <= 16
        &&& valid_utf8(self.bytes@.take(self.len as int))
        &&& forall|i: int| self.len <= i < 16 ==> self.bytes@[i] == 0
    }

    /// The UTF-8 bytes of the string.
    pub closed spec fn spec_bytes(self) -> Seq<u8> {
        self.bytes@.take(self.len as int)
    }

    /// The text, where it is short enough to be held inline.
    pub fn try_from_str(value: &str) -> (r: Option<Self>)
        ensures
            r == if fits_inline(value@) {
                Some(small_string_of(value@))
            } else {
                None
            },
    {
        let source = value.as_bytes();
        let n = source.len();
        if n > SMALL_STRING_CAPACITY {
            return None;
        }
        let mut bytes: [u8; 16] = [0u8; 16];
        let mut i: usize = 0;
        while i < n
            invariant
                i <= n <= 16,
                n == source@.len(),
                forall|j: int| 0 <= j < i ==> bytes@[j] == source@[j],
                forall|j: int| i <= j < 16 ==> bytes@[j] == 0,
            decreases n - i,
        {
            bytes[i] = source[i];
            i += 1;
        }
        proof {
            assert(bytes@.take(n as int) =~= source@);
            vstd::utf8::encode_utf8_valid_utf8(value@);
            vstd::utf8::encode_utf8_decode_utf8(value@);
            lemma_small_string_of(value@);
            let made = Self { len: n as u8, bytes };
            assert(made.wf());
            assert(made@ == value@);
            lemma_small_string_equal(made, small_string_of(value@));
        }
        Some(Self { len: n as u8, bytes })
    }

    /// The number of bytes of the string.
    pub fn len(&self) -> (r: usize)
        ensures
            r == encode_utf8(self@).len(),
            r <= 16,
    {
        proof {
            use_type_invariant(self);
            vstd::utf8::decode_utf8_encode_utf8(self.bytes@.take(self.len as int));
        }
        self.len as usize
    }

    /// Whether the string has no characters.
    pub fn is_empty(&self) -> (r: bool)
        ensures
            r == (self@.len() == 0),
    {
        proof {
            use_type_invariant(self);
            let used = self.bytes@.take(self.len as int);
            vstd::utf8::decode_utf8_encode_utf8(used);
            if self.len == 0 {
                assert(used =~= Seq::<u8>::empty());
            } else {
                assert(encode_utf8(Seq::<char>::empty()) =~= Seq::<u8>::empty());
            }
        }
        self.len == 0
    }

    /// The text as an owned string.
    pub fn to_string(&self) -> (r: String)
        ensures
            r@ == self@,
    {
        proof {
            use_type_invariant(self);
        }
        let used = slice_subrange(self.bytes.as_slice(), 0, self.len as usize);
        assert(used@ =~= self.bytes@.take(self.len as int));
        match string_from_utf8(used) {
            Some(text) => text,
            None => String::new(),
        }
    }
}

impl PartialEq for SmallString {
    fn eq(&self, other: &Self) -> (r: bool) {
        proof {
            use_type_invariant(self);
            use_type_invariant(other);
            if self@ == other@ {
                lemma_small_string_equal(*self, *other);
            }
        }
        if self.len != other.len {
            return false;
        }
        let mut i: usize = 0;
        while i < 16
            invariant
                i <= 16,
                self@ == other@ ==> *self == *other,
                forall|j: int| 0 <= j < i ==> self.bytes@[j] == other.bytes@[j],
            decreases 16 - i,
        {
            if self.bytes[i] != other.bytes[i] {
                return false;
            }
            i += 1;
        }
        proof {
            assert(self.bytes@ =~= other.bytes@);
        }
        true
    }
}

impl PartialEqSpecImpl for SmallString {
    open spec fn obeys_eq_spec() -> bool {
        true
    }

    open spec fn eq_spec(&self, other: &Self) -> bool {
        self@ == other@
    }
}

/// Two inline strings with the same text are the same value.
pub proof fn lemma_small_string_equal(a: SmallString, b: SmallString)
    requires
        a.wf(),
        b.wf(),
        a@ == b@,
    ensures
        a == b,
{
    let used_a = a.bytes@.take(a.len as int);
    let used_b = b.bytes@.take(b.len as int);
    vstd::utf8::decode_utf8_encode_utf8(used_a);
    vstd::utf8::decode_utf8_encode_utf8(used_b);
    assert(used_a == used_b);
    assert(a.len == b.len);
    assert forall|i: int| 0 <= i < 16 implies a.bytes@[i] == b.bytes@[i] by {
        if i < a.len {
            assert(used_a[i] == a.bytes@[i]);
            assert(used_b[i] == b.bytes@[i]);
        }
    }
    assert(a.bytes@ =~= b.bytes@);
    assert(a.bytes == b.bytes);
}

/// Whether 17 bytes are the layout of an inline string: the length, at
/// most 16, then the bytes of the text, and zeros up to the end.
pub open spec fn is_small_string_layout(layout: Seq<u8>) -> bool {
    &&& layout.len() == 17
    &&& layout[0] <= 16
    &&& valid_utf8(layout.subrange(1, 1 + layout[0]))
    &&& forall|i: int| 1 + layout[0] <= i < 17 ==> layout[i] == 0
}

impl SmallString {
    /// The layout of the string in 17 bytes: its length, then its buffer.
    pub closed spec fn layout(self) -> Seq<u8> {
        seq![self.len] + self.bytes@
    }

    /// The layout of a well-formed string is in order.
    pub proof fn lemma_layout(self)
        requires
            self.wf(),
        ensures
            is_small_string_layout(self.layout()),
    {
        broadcast use vstd::array::group_array_axioms;

        let layout = self.layout();
        assert(layout.subrange(1, 1 + layout[0]) =~= self.bytes@.take(self.len as int));
        assert forall|i: int| 1 + layout[0] <= i < 17 implies layout[i] == 0 by {
            assert(layout[i] == self.bytes@[i - 1]);
        }
    }

    /// Two well-formed strings with the same layout are the same.
    pub proof fn lemma_layout_injective(self, other: Self)
        requires
            self.layout() == other.layout(),
        ensures
            self == other,
    {
        broadcast use vstd::array::group_array_axioms;

        assert(self.bytes@.len() == 16 && other.bytes@.len() == 16);
        assert(self.layout()[0] == self.len);
        assert(other.layout()[0] == other.len);
        assert(self.len == other.len);
        assert forall|i: int| 0 <= i < 16 implies self.bytes@[i] == other.bytes@[i] by {
            assert(self.layout()[i + 1] == other.layout()[i + 1]);
            assert(self.layout()[i + 1] == self.bytes@[i]);
            assert(other.layout()[i + 1] == other.bytes@[i]);
        }
        assert(self.bytes@ =~= other.bytes@);
        assert(self.bytes == other.bytes);
    }

    /// Appends the layout of the string to `out`.
    pub fn write_to(&self, out: &mut Vec<u8>)
        ensures
            final(out)@ == old(out)@ + self.layout(),
            self.wf(),
    {
        proof {
            use_type_invariant(self);
        }
        let ghost start = out@;
        out.push(self.len);
        let mut i: usize = 0;
        while i < 16
            invariant
                i <= 16,
                out@ == start + seq![self.len] + self.bytes@.take(i as int),
            decreases 16 - i,
        {
            out.push(self.bytes[i]);
            proof {
                assert(out@ =~= start + seq![self.len] + self.bytes@.take(i as int + 1));
            }
            i += 1;
        }
        proof {
            assert(self.bytes@.take(16) =~= self.bytes@);
            assert(out@ =~= start + self.layout());
        }
    }

    /// Reads the string whose layout stands at a place, if one stands
    /// there.
    pub fn read_from(bytes: &[u8], at: usize) -> (r: Option<Self>)
        requires
            at + 17 <= bytes@.len(),
        ensures
            r is Some <==> is_small_string_layout(bytes@.subrange(at as int, at + 17)),
            r matches Some(s) ==> s.wf() && s.layout() == bytes@.subrange(at as int, at + 17),
    {
        let ghost layout = bytes@.subrange(at as int, at + 17);
        let n = bytes.len();
        let len = bytes[at];
        proof {
            assert(layout[0] == len);
        }
        if len > 16 {
            return None;
        }
        let mut buffer: [u8; 16] = [0u8; 16];
        let mut i: usize = 0;
        while i < 16
            invariant
                i <= 16,
                n == bytes@.len(),
                at + 17 <= n,
                layout == bytes@.subrange(at as int, at + 17),
                len <= 16,
                layout[0] == len,
                forall|j: int| 0 <= j < i ==> buffer@[j] == layout[j + 1],
                forall|j: int| len <= j < i ==> buffer@[j] == 0,
            decreases 16 - i,
        {
            let b = bytes[at + 1 + i];
            proof {
                assert(layout[i + 1] == b);
            }
            if i >= len as usize && b != 0 {
                proof {
                    assert(layout[i + 1] != 0 && 1 + layout[0] <= i + 1 < 17);
                }
                return None;
            }
            buffer[i] = b;
            i += 1;
        }
        let used = slice_subrange(bytes, at + 1, at + 1 + len as usize);
        proof {
            assert(used@ =~= layout.subrange(1, 1 + len));
            assert(used@ =~= buffer@.take(len as int));
        }
        if string_from_utf8(used).is_none() {
            return None;
        }
        let made = Self { len, bytes: buffer };
        proof {
            assert(made.layout() =~= layout);
            assert forall|i: int| 1 + layout[0] <= i < 17 implies layout[i] == 0 by {
                assert(buffer@[i - 1] == layout[i]);
            }
        }
        Some(made)
    }
}

} // verus!

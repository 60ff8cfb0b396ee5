//! Blank nodes: a label, or a number that stands for itself and is written in
//! hexadecimal.

use crate::model::lexical::{ascii_string, ascii_text, is_ascii_bytes, lemma_ascii_text};
use crate::text::copy_str;
use vstd::prelude::*;
use vstd::string::StringSliceAdditionalSpecFns;
use vstd::utf8::encode_utf8;

verus! {

/// What a blank node is: a label, or a number that stands for itself.
pub enum BlankNodeView {
    Named(Seq<char>),
    Anonymous(u128),
}

/// The value of a lower-case hexadecimal digit, 0 for any other byte.
pub open spec fn hex_digit_value(b: u8) -> nat {
    if 0x30 <= b <= 0x39 {
        (b - 0x30) as nat
    } else if 0x61 <= b <= 0x66 {
        (b - 0x61 + 10) as nat
    } else {
        0
    }
}

pub open spec fn is_hex_digit(b: u8) -> bool {
    0x30 <= b <= 0x39 || 0x61 <= b <= 0x66
}

/// The number that a string of hexadecimal digits denotes.
pub open spec fn hex_value(bytes: Seq<u8>) -> nat
    decreases bytes.len(),
{
    if bytes.len() == 0 {
        0
    } else {
        hex_value(bytes.drop_last()) * 16 + hex_digit_value(bytes.last())
    }
}

/// The number that a label denotes, where it is the hexadecimal writing of a
/// number of 128 bits: lower case, not empty, no leading zero.
pub open spec fn integer_id_of(bytes: Seq<u8>) -> Option<u128> {
    if bytes.len() == 0 || bytes[0] == 0x30 {
        None
    } else if (forall|i: int| 0 <= i < bytes.len() ==> is_hex_digit(#[trigger] bytes[i]))
        && hex_value(bytes) <= u128::MAX {
        Some(hex_value(bytes) as u128)
    } else {
        None
    }
}

impl BlankNodeView {
    /// A label never writes a number: the node of such a label is the node
    /// of the number.
    pub open spec fn wf(self) -> bool {
        match self {
            BlankNodeView::Named(label) => integer_id_of(encode_utf8(label)) is None,
            BlankNodeView::Anonymous(_) => true,
        }
    }
}

/// What a label stands for: the number it writes, else itself.
pub open spec fn blank_node_of_label(label: Seq<char>) -> BlankNodeView {
    match integer_id_of(encode_utf8(label)) {
        Some(id) => BlankNodeView::Anonymous(id),
        None => BlankNodeView::Named(label),
    }
}

pub proof fn lemma_hex_value_prefix(bytes: Seq<u8>, n: int)
    requires
        0 <= n <= bytes.len(),
    ensures
        hex_value(bytes.take(n)) <= hex_value(bytes),
    decreases bytes.len() - n,
{
    if n < bytes.len() {
        lemma_hex_value_prefix(bytes, n + 1);
        assert(bytes.take(n + 1).drop_last() =~= bytes.take(n));
    } else {
        assert(bytes.take(n) =~= bytes);
    }
}

/// The number that a label writes in hexadecimal, if it writes one.
pub fn to_integer_id(id: &str) -> (r: Option<u128>)
    ensures
        r == integer_id_of(encode_utf8(id@)),
{
    let digits = id.as_bytes();
    let n = digits.len();
    if n == 0 || digits[0] == 0x30 {
        return None;
    }
    let mut value: u128 = 0;
    let mut i: usize = 0;
    while i < n
        invariant
            i <= n,
            n == digits@.len(),
            digits@ == encode_utf8(id@),
            n > 0,
            digits@[0] != 0x30,
            value as nat == hex_value(digits@.take(i as int)),
            forall|j: int| 0 <= j < i ==> is_hex_digit(#[trigger] digits@[j]),
        decreases n - i,
    {
        let digit = digits[i];
        proof {
            assert(digits@.take(i as int + 1).drop_last() =~= digits@.take(i as int));
            lemma_hex_value_prefix(digits@, i as int + 1);
        }
        let d: u128 = if 0x30 <= digit && digit <= 0x39 {
            (digit - 0x30) as u128
        } else if 0x61 <= digit && digit <= 0x66 {
            (digit - 0x61 + 10) as u128
        } else {
            return None;
        };
        if value > u128::MAX / 16 {
            return None;
        }
        let shifted: u128 = value * 16;
        if shifted > u128::MAX - d {
            return None;
        }
        value = shifted + d;
        i += 1;
    }
    proof {
        assert(digits@.take(n as int) =~= digits@);
    }
    Some(value)
}

/// The lower-case hexadecimal digit of a value below 16.
pub open spec fn hex_digit(value: nat) -> u8 {
    if value < 10 {
        (0x30 + value) as u8
    } else {
        (0x61 + value - 10) as u8
    }
}

/// The hexadecimal writing of a number: lower case, without zeros in front,
/// and one zero for zero.
pub open spec fn hex_bytes(n: nat) -> Seq<u8>
    decreases n,
{
    if n < 16 {
        seq![hex_digit(n)]
    } else {
        hex_bytes(n / 16).push(hex_digit(n % 16))
    }
}

/// The text of a blank node: its label, or the hexadecimal writing of its
/// number.
pub open spec fn blank_node_text(node: BlankNodeView) -> Seq<char> {
    match node {
        BlankNodeView::Named(label) => label,
        BlankNodeView::Anonymous(id) => ascii_text(hex_bytes(id as nat)),
    }
}

/// The hexadecimal writing of a number is made of hexadecimal digits, begins
/// with a zero only for zero, and denotes the number.
pub proof fn lemma_hex_bytes(n: nat)
    ensures
        hex_bytes(n).len() >= 1,
        forall|i: int| 0 <= i < hex_bytes(n).len() ==> is_hex_digit(#[trigger] hex_bytes(n)[i]),
        is_ascii_bytes(hex_bytes(n)),
        hex_value(hex_bytes(n)) == n,
        n > 0 ==> hex_bytes(n)[0] != 0x30,
    decreases n,
{
    let digits = hex_bytes(n);
    if n < 16 {
        assert(digits.drop_last() =~= Seq::<u8>::empty());
        assert(hex_value(digits.drop_last()) == 0);
        assert(hex_digit_value(hex_digit(n)) == n);
    } else {
        let front = hex_bytes(n / 16);
        lemma_hex_bytes(n / 16);
        assert(digits.drop_last() =~= front);
        assert(hex_digit_value(hex_digit(n % 16)) == n % 16);
        assert(digits[0] == front[0]);
        assert forall|i: int| 0 <= i < digits.len() implies is_hex_digit(
            #[trigger] digits[i],
        ) by {
            if i < front.len() {
                assert(digits[i] == front[i]);
            }
        }
        assert forall|i: int| 0 <= i < digits.len() implies #[trigger] digits[i] < 128 by {
            assert(is_hex_digit(digits[i]));
        }
    }
}

/// The text of a blank node stands for the node: reading a label, or the
/// writing of a number that is not zero, gives the node back. The writing
/// of zero begins with a zero, and is read as a label.
pub proof fn lemma_text_round_trip(node: BlankNodeView)
    requires
        node.wf(),
        node != BlankNodeView::Anonymous(0),
    ensures
        blank_node_of_label(blank_node_text(node)) == node,
{
    match node {
        BlankNodeView::Named(_) => {},
        BlankNodeView::Anonymous(id) => {
            lemma_hex_bytes(id as nat);
            lemma_ascii_text(hex_bytes(id as nat));
        },
    }
}

fn push_hex(out: &mut Vec<u8>, value: u128)
    ensures
        final(out)@ == old(out)@ + hex_bytes(value as nat),
    decreases value,
{
    if value >= 16 {
        push_hex(out, value / 16);
    }
    let digit: u8 = (value % 16) as u8;
    let byte: u8 = if digit < 10 {
        0x30 + digit
    } else {
        0x61 + (digit - 10)
    };
    out.push(byte);
    proof {
        assert(byte == hex_digit((value % 16) as nat));
        assert(out@ =~= old(out)@ + hex_bytes(value as nat));
    }
}

#[derive(Clone, Debug, PartialEq, Eq, Hash)]
enum BlankNodeContent {
    Named(String),
    Anonymous(u128),
}

/// What names a blank node: a number, or a label.
#[derive(Clone, Copy, Debug)]
pub enum BlankNodeName<'a> {
    Number(u128),
    Label(&'a str),
}

/// A blank node.
#[derive(Clone, Debug, PartialEq, Eq, Hash)]
pub struct BlankNode {
    content: BlankNodeContent,
}

impl View for BlankNode {
    type V = BlankNodeView;

    closed spec fn view(&self) -> BlankNodeView {
        match self.content {
            BlankNodeContent::Named(label) => BlankNodeView::Named(label@),
            BlankNodeContent::Anonymous(id) => BlankNodeView::Anonymous(id),
        }
    }
}

impl BlankNode {
    /// The blank node of a label, taken as it is. A label that writes a
    /// number in hexadecimal gives the node of that number.
    pub fn new_unchecked(id: String) -> (r: Self)
        ensures
            r@ == blank_node_of_label(id@),
            r@.wf(),
    {
        match to_integer_id(id.as_str()) {
            Some(number) => Self { content: BlankNodeContent::Anonymous(number) },
            None => Self { content: BlankNodeContent::Named(id) },
        }
    }

    /// The blank node of a number.
    pub fn new_from_unique_id(id: u128) -> (r: Self)
        ensures
            r@ == BlankNodeView::Anonymous(id),
    {
        Self { content: BlankNodeContent::Anonymous(id) }
    }

    /// The number of the node, if it is that of a number.
    pub fn id(&self) -> (r: Option<u128>)
        ensures
            r == match self@ {
                BlankNodeView::Anonymous(id) => Some(id),
                BlankNodeView::Named(_) => None::<u128>,
            },
    {
        match &self.content {
            BlankNodeContent::Named(_) => None,
            BlankNodeContent::Anonymous(id) => Some(*id),
        }
    }

    /// The label of the node, if it has one.
    pub fn label(&self) -> (r: Option<&str>)
        ensures
            match self@ {
                BlankNodeView::Anonymous(_) => r is None,
                BlankNodeView::Named(label) => r is Some && r.unwrap()@ == label,
            },
    {
        match &self.content {
            BlankNodeContent::Named(label) => Some(label.as_str()),
            BlankNodeContent::Anonymous(_) => None,
        }
    }

    /// The text of the node: its label, or the hexadecimal writing of its
    /// number.
    pub fn to_text(&self) -> (r: String)
        ensures
            r@ == blank_node_text(self@),
    {
        match &self.content {
            BlankNodeContent::Named(label) => copy_str(label.as_str()),
            BlankNodeContent::Anonymous(id) => {
                let mut digits: Vec<u8> = Vec::new();
                push_hex(&mut digits, *id);
                proof {
                    lemma_hex_bytes(*id as nat);
                    assert(digits@ =~= hex_bytes(*id as nat));
                }
                ascii_string(&digits)
            },
        }
    }

    /// What names the node: its number, or its label.
    pub fn name(&self) -> (r: BlankNodeName<'_>)
        ensures
            match r {
                BlankNodeName::Number(id) => self@ == BlankNodeView::Anonymous(id),
                BlankNodeName::Label(label) => self@ == BlankNodeView::Named(label@),
            },
    {
        match &self.content {
            BlankNodeContent::Named(label) => BlankNodeName::Label(label.as_str()),
            BlankNodeContent::Anonymous(id) => BlankNodeName::Number(*id),
        }
    }

    /// A copy of the node.
    pub fn duplicate(&self) -> (r: Self)
        ensures
            r@ == self@,
    {
        match &self.content {
            BlankNodeContent::Named(label) => Self { content: BlankNodeContent::Named(label.clone()) },
            BlankNodeContent::Anonymous(id) => Self { content: BlankNodeContent::Anonymous(*id) },
        }
    }

    /// Whether two nodes are the same.
    pub fn same(&self, other: &Self) -> (r: bool)
        ensures
            r == (self@ == other@),
    {
        match (&self.content, &other.content) {
            (BlankNodeContent::Named(a), BlankNodeContent::Named(b)) => *a == *b,
            (BlankNodeContent::Anonymous(a), BlankNodeContent::Anonymous(b)) => *a == *b,
            _ => false,
        }
    }
}

} // verus!

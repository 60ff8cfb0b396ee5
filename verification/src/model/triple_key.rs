//! The key of a triple: its terms written out as bytes, so that two triples
//! have one key only where they are one triple.

use crate::model::blank_node::{BlankNode, BlankNodeName, BlankNodeView};
use crate::model::literal::{Literal, LiteralForm, LiteralView};
use crate::model::triple::{Subject, SubjectView, Term, TermView, Triple, TripleView};
use crate::storage::be_bytes::{be_bytes, lemma_be_bytes, lemma_pow256_values, write_be};
use crate::storage::numeric_encoder::pow256;
use vstd::prelude::*;
use vstd::string::StringSliceAdditionalSpecFns;
use vstd::utf8::encode_utf8;

verus! {

/// The number of lengths that eight bytes can tell apart.
pub open spec fn length_base() -> nat {
    0x1_0000_0000_0000_0000
}

/// A length as bytes: a byte that says whether more follows, and eight
/// bytes of the length, the least significant eight first.
pub open spec fn length_key(n: nat) -> Seq<u8>
    decreases n,
{
    if n < length_base() {
        seq![0u8] + be_bytes(n, 8)
    } else {
        seq![1u8] + be_bytes(n % length_base(), 8) + length_key(n / length_base())
    }
}

/// A text as bytes: the length of its UTF-8 form, then that form.
pub open spec fn text_key(text: Seq<char>) -> Seq<u8> {
    length_key(encode_utf8(text).len()) + encode_utf8(text)
}

/// A blank node as bytes.
pub open spec fn blank_node_key(node: BlankNodeView) -> Seq<u8> {
    match node {
        BlankNodeView::Named(label) => seq![0u8] + text_key(label),
        BlankNodeView::Anonymous(id) => seq![1u8] + be_bytes(id as nat, 16),
    }
}

/// A literal as bytes.
pub open spec fn literal_key(literal: LiteralView) -> Seq<u8> {
    match literal {
        LiteralView::Simple { value } => seq![0u8] + text_key(value),
        LiteralView::LanguageTagged { value, language } => seq![1u8] + (text_key(value) + text_key(
            language,
        )),
        LiteralView::Typed { value, datatype } => seq![2u8] + (text_key(value) + text_key(
            datatype,
        )),
        LiteralView::Float { bits } => seq![3u8] + be_bytes(bits as nat, 4),
        LiteralView::Double { bits } => seq![4u8] + be_bytes(bits as nat, 8),
    }
}

/// A term as bytes.
pub open spec fn term_key(term: TermView) -> Seq<u8>
    decreases term,
{
    match term {
        TermView::NamedNode(iri) => seq![0u8] + text_key(iri),
        TermView::BlankNode(node) => seq![1u8] + blank_node_key(node),
        TermView::Literal(literal) => seq![2u8] + literal_key(literal),
        TermView::Triple(triple) => seq![3u8] + triple_key_bytes(*triple),
    }
}

/// A subject as bytes.
pub open spec fn subject_key(subject: SubjectView) -> Seq<u8>
    decreases subject,
{
    match subject {
        SubjectView::NamedNode(iri) => seq![0u8] + text_key(iri),
        SubjectView::BlankNode(node) => seq![1u8] + blank_node_key(node),
        SubjectView::Triple(triple) => seq![3u8] + triple_key_bytes(*triple),
    }
}

/// The key of a triple: its subject, its predicate and its object as bytes,
/// one behind the other.
pub open spec fn triple_key_bytes(triple: TripleView) -> Seq<u8>
    decreases triple,
{
    subject_key(triple.subject) + (text_key(triple.predicate) + term_key(triple.object))
}

proof fn lemma_same_length_parts(a: Seq<u8>, x: Seq<u8>, b: Seq<u8>, y: Seq<u8>)
    requires
        a.len() == b.len(),
        a + x == b + y,
    ensures
        a == b,
        x == y,
{
    assert((a + x).take(a.len() as int) =~= a);
    assert((b + y).take(b.len() as int) =~= b);
    assert((a + x).skip(a.len() as int) =~= x);
    assert((b + y).skip(b.len() as int) =~= y);
}

proof fn lemma_tagged_parts(s: u8, a: Seq<u8>, x: Seq<u8>, t: u8, b: Seq<u8>, y: Seq<u8>)
    requires
        (seq![s] + a) + x == (seq![t] + b) + y,
    ensures
        s == t,
        a + x == b + y,
{
    assert(((seq![s] + a) + x)[0] == s);
    assert(((seq![t] + b) + y)[0] == t);
    assert(((seq![s] + a) + x).skip(1) =~= a + x);
    assert(((seq![t] + b) + y).skip(1) =~= b + y);
}

proof fn lemma_number_parts(n: nat, x: Seq<u8>, m: nat, y: Seq<u8>, width: nat)
    requires
        n < pow256(width),
        m < pow256(width),
        be_bytes(n, width) + x == be_bytes(m, width) + y,
    ensures
        n == m,
        x == y,
{
    lemma_be_bytes(n, width);
    lemma_be_bytes(m, width);
    lemma_same_length_parts(be_bytes(n, width), x, be_bytes(m, width), y);
    vstd::arithmetic::div_mod::lemma_small_mod(n, pow256(width));
    vstd::arithmetic::div_mod::lemma_small_mod(m, pow256(width));
}

proof fn lemma_length_parts(n: nat, x: Seq<u8>, m: nat, y: Seq<u8>)
    requires
        length_key(n) + x == length_key(m) + y,
    ensures
        n == m,
        x == y,
    decreases n,
{
    lemma_pow256_values();
    let base = length_base();
    if n < base {
        if m < base {
            lemma_tagged_parts(0u8, be_bytes(n, 8), x, 0u8, be_bytes(m, 8), y);
            lemma_number_parts(n, x, m, y, 8);
        } else {
            let rest = be_bytes(m % base, 8) + length_key(m / base);
            assert(length_key(m) =~= seq![1u8] + rest);
            lemma_tagged_parts(0u8, be_bytes(n, 8), x, 1u8, rest, y);
        }
    } else {
        let front = be_bytes(n % base, 8) + length_key(n / base);
        assert(length_key(n) =~= seq![1u8] + front);
        if m < base {
            lemma_tagged_parts(1u8, front, x, 0u8, be_bytes(m, 8), y);
        } else {
            let rest = be_bytes(m % base, 8) + length_key(m / base);
            assert(length_key(m) =~= seq![1u8] + rest);
            lemma_tagged_parts(1u8, front, x, 1u8, rest, y);
            assert(front + x =~= be_bytes(n % base, 8) + (length_key(n / base) + x));
            assert(rest + y =~= be_bytes(m % base, 8) + (length_key(m / base) + y));
            lemma_number_parts(
                n % base,
                length_key(n / base) + x,
                m % base,
                length_key(m / base) + y,
                8,
            );
            lemma_length_parts(n / base, x, m / base, y);
            vstd::arithmetic::div_mod::lemma_fundamental_div_mod(n as int, base as int);
            vstd::arithmetic::div_mod::lemma_fundamental_div_mod(m as int, base as int);
        }
    }
}

proof fn lemma_text_parts(a: Seq<char>, x: Seq<u8>, b: Seq<char>, y: Seq<u8>)
    requires
        text_key(a) + x == text_key(b) + y,
    ensures
        a == b,
        x == y,
{
    let n = encode_utf8(a).len();
    let m = encode_utf8(b).len();
    assert(text_key(a) + x =~= length_key(n) + (encode_utf8(a) + x));
    assert(text_key(b) + y =~= length_key(m) + (encode_utf8(b) + y));
    lemma_length_parts(n, encode_utf8(a) + x, m, encode_utf8(b) + y);
    lemma_same_length_parts(encode_utf8(a), x, encode_utf8(b), y);
    vstd::utf8::encode_utf8_decode_utf8(a);
    vstd::utf8::encode_utf8_decode_utf8(b);
}

proof fn lemma_two_texts_parts(
    a: Seq<char>,
    b: Seq<char>,
    x: Seq<u8>,
    c: Seq<char>,
    d: Seq<char>,
    y: Seq<u8>,
)
    requires
        (text_key(a) + text_key(b)) + x == (text_key(c) + text_key(d)) + y,
    ensures
        a == c,
        b == d,
        x == y,
{
    assert((text_key(a) + text_key(b)) + x =~= text_key(a) + (text_key(b) + x));
    assert((text_key(c) + text_key(d)) + y =~= text_key(c) + (text_key(d) + y));
    lemma_text_parts(a, text_key(b) + x, c, text_key(d) + y);
    lemma_text_parts(b, x, d, y);
}

proof fn lemma_blank_node_parts(a: BlankNodeView, x: Seq<u8>, b: BlankNodeView, y: Seq<u8>)
    requires
        blank_node_key(a) + x == blank_node_key(b) + y,
    ensures
        a == b,
        x == y,
{
    lemma_pow256_values();
    match (a, b) {
        (BlankNodeView::Named(s), BlankNodeView::Named(t)) => {
            lemma_tagged_parts(0u8, text_key(s), x, 0u8, text_key(t), y);
            lemma_text_parts(s, x, t, y);
        },
        (BlankNodeView::Named(s), BlankNodeView::Anonymous(j)) => {
            lemma_tagged_parts(0u8, text_key(s), x, 1u8, be_bytes(j as nat, 16), y);
        },
        (BlankNodeView::Anonymous(i), BlankNodeView::Named(t)) => {
            lemma_tagged_parts(1u8, be_bytes(i as nat, 16), x, 0u8, text_key(t), y);
        },
        (BlankNodeView::Anonymous(i), BlankNodeView::Anonymous(j)) => {
            lemma_tagged_parts(1u8, be_bytes(i as nat, 16), x, 1u8, be_bytes(j as nat, 16), y);
            lemma_number_parts(i as nat, x, j as nat, y, 16);
        },
    }
}

/// The tag of a literal and what follows it.
spec fn literal_tag(literal: LiteralView) -> u8 {
    match literal {
        LiteralView::Simple { .. } => 0u8,
        LiteralView::LanguageTagged { .. } => 1u8,
        LiteralView::Typed { .. } => 2u8,
        LiteralView::Float { .. } => 3u8,
        LiteralView::Double { .. } => 4u8,
    }
}

spec fn literal_body(literal: LiteralView) -> Seq<u8> {
    match literal {
        LiteralView::Simple { value } => text_key(value),
        LiteralView::LanguageTagged { value, language } => text_key(value) + text_key(language),
        LiteralView::Typed { value, datatype } => text_key(value) + text_key(datatype),
        LiteralView::Float { bits } => be_bytes(bits as nat, 4),
        LiteralView::Double { bits } => be_bytes(bits as nat, 8),
    }
}

proof fn lemma_literal_parts(a: LiteralView, x: Seq<u8>, b: LiteralView, y: Seq<u8>)
    requires
        literal_key(a) + x == literal_key(b) + y,
    ensures
        a == b,
        x == y,
{
    lemma_pow256_values();
    assert(literal_key(a) == seq![literal_tag(a)] + literal_body(a));
    assert(literal_key(b) == seq![literal_tag(b)] + literal_body(b));
    lemma_tagged_parts(literal_tag(a), literal_body(a), x, literal_tag(b), literal_body(b), y);
    match (a, b) {
        (LiteralView::Simple { value: s }, LiteralView::Simple { value: t }) => {
            lemma_text_parts(s, x, t, y);
        },
        (
            LiteralView::LanguageTagged { value: s, language: k },
            LiteralView::LanguageTagged { value: t, language: l },
        ) => {
            lemma_two_texts_parts(s, k, x, t, l, y);
        },
        (
            LiteralView::Typed { value: s, datatype: k },
            LiteralView::Typed { value: t, datatype: l },
        ) => {
            lemma_two_texts_parts(s, k, x, t, l, y);
        },
        (LiteralView::Float { bits: i }, LiteralView::Float { bits: j }) => {
            lemma_number_parts(i as nat, x, j as nat, y, 4);
        },
        (LiteralView::Double { bits: i }, LiteralView::Double { bits: j }) => {
            lemma_number_parts(i as nat, x, j as nat, y, 8);
        },
        _ => {},
    }
}

proof fn lemma_term_parts(a: TermView, x: Seq<u8>, b: TermView, y: Seq<u8>)
    requires
        term_key(a) + x == term_key(b) + y,
    ensures
        a == b,
        x == y,
    decreases a, 0nat,
{
    match (a, b) {
        (TermView::NamedNode(s), TermView::NamedNode(t)) => {
            lemma_tagged_parts(0u8, text_key(s), x, 0u8, text_key(t), y);
            lemma_text_parts(s, x, t, y);
        },
        (TermView::BlankNode(s), TermView::BlankNode(t)) => {
            lemma_tagged_parts(1u8, blank_node_key(s), x, 1u8, blank_node_key(t), y);
            lemma_blank_node_parts(s, x, t, y);
        },
        (TermView::Literal(s), TermView::Literal(t)) => {
            lemma_tagged_parts(2u8, literal_key(s), x, 2u8, literal_key(t), y);
            lemma_literal_parts(s, x, t, y);
        },
        (TermView::Triple(s), TermView::Triple(t)) => {
            lemma_tagged_parts(3u8, triple_key_bytes(*s), x, 3u8, triple_key_bytes(*t), y);
            lemma_triple_parts(*s, x, *t, y);
        },
        _ => {
            lemma_tagged_parts(term_tag(a), term_body(a), x, term_tag(b), term_body(b), y);
        },
    }
}

spec fn term_tag(term: TermView) -> u8 {
    match term {
        TermView::NamedNode(_) => 0u8,
        TermView::BlankNode(_) => 1u8,
        TermView::Literal(_) => 2u8,
        TermView::Triple(_) => 3u8,
    }
}

spec fn term_body(term: TermView) -> Seq<u8> {
    match term {
        TermView::NamedNode(iri) => text_key(iri),
        TermView::BlankNode(node) => blank_node_key(node),
        TermView::Literal(literal) => literal_key(literal),
        TermView::Triple(triple) => triple_key_bytes(*triple),
    }
}

spec fn subject_tag(subject: SubjectView) -> u8 {
    match subject {
        SubjectView::NamedNode(_) => 0u8,
        SubjectView::BlankNode(_) => 1u8,
        SubjectView::Triple(_) => 3u8,
    }
}

spec fn subject_body(subject: SubjectView) -> Seq<u8> {
    match subject {
        SubjectView::NamedNode(iri) => text_key(iri),
        SubjectView::BlankNode(node) => blank_node_key(node),
        SubjectView::Triple(triple) => triple_key_bytes(*triple),
    }
}

proof fn lemma_subject_parts(a: SubjectView, x: Seq<u8>, b: SubjectView, y: Seq<u8>)
    requires
        subject_key(a) + x == subject_key(b) + y,
    ensures
        a == b,
        x == y,
    decreases a, 0nat,
{
    match (a, b) {
        (SubjectView::NamedNode(s), SubjectView::NamedNode(t)) => {
            lemma_tagged_parts(0u8, text_key(s), x, 0u8, text_key(t), y);
            lemma_text_parts(s, x, t, y);
        },
        (SubjectView::BlankNode(s), SubjectView::BlankNode(t)) => {
            lemma_tagged_parts(1u8, blank_node_key(s), x, 1u8, blank_node_key(t), y);
            lemma_blank_node_parts(s, x, t, y);
        },
        (SubjectView::Triple(s), SubjectView::Triple(t)) => {
            lemma_tagged_parts(3u8, triple_key_bytes(*s), x, 3u8, triple_key_bytes(*t), y);
            lemma_triple_parts(*s, x, *t, y);
        },
        _ => {
            lemma_tagged_parts(
                subject_tag(a),
                subject_body(a),
                x,
                subject_tag(b),
                subject_body(b),
                y,
            );
        },
    }
}

proof fn lemma_triple_parts(a: TripleView, x: Seq<u8>, b: TripleView, y: Seq<u8>)
    requires
        triple_key_bytes(a) + x == triple_key_bytes(b) + y,
    ensures
        a == b,
        x == y,
    decreases a, 1nat,
{
    let after_a = text_key(a.predicate) + term_key(a.object);
    let after_b = text_key(b.predicate) + term_key(b.object);
    assert(triple_key_bytes(a) + x =~= subject_key(a.subject) + (after_a + x));
    assert(triple_key_bytes(b) + y =~= subject_key(b.subject) + (after_b + y));
    lemma_subject_parts(a.subject, after_a + x, b.subject, after_b + y);
    assert(after_a + x =~= text_key(a.predicate) + (term_key(a.object) + x));
    assert(after_b + y =~= text_key(b.predicate) + (term_key(b.object) + y));
    lemma_text_parts(a.predicate, term_key(a.object) + x, b.predicate, term_key(b.object) + y);
    lemma_term_parts(a.object, x, b.object, y);
}

/// Two triples with one key are one triple.
pub proof fn lemma_key_tells_triples_apart(a: TripleView, b: TripleView)
    requires
        triple_key_bytes(a) == triple_key_bytes(b),
    ensures
        a == b,
{
    lemma_triple_parts(a, Seq::empty(), b, Seq::empty());
}

fn write_text(out: &mut Vec<u8>, text: &str)
    ensures
        final(out)@ == old(out)@ + text_key(text@),
{
    let bytes = text.as_bytes();
    let n = bytes.len();
    let ghost start = out@;
    out.push(0u8);
    write_be(out, n as u128, 8);
    let ghost headed = out@;
    proof {
        lemma_pow256_values();
        assert(headed =~= start + length_key(n as nat));
    }
    let mut i: usize = 0;
    while i < n
        invariant
            i <= n,
            n == bytes@.len(),
            bytes@ == encode_utf8(text@),
            out@ == headed + bytes@.take(i as int),
        decreases n - i,
    {
        out.push(bytes[i]);
        proof {
            assert(out@ =~= headed + bytes@.take(i as int + 1));
        }
        i += 1;
    }
    proof {
        assert(bytes@.take(n as int) =~= bytes@);
        assert(out@ =~= start + text_key(text@));
    }
}

fn write_blank_node(out: &mut Vec<u8>, node: &BlankNode)
    ensures
        final(out)@ == old(out)@ + blank_node_key(node@),
{
    let ghost start = out@;
    match node.name() {
        BlankNodeName::Label(label) => {
            out.push(0u8);
            write_text(out, label);
            proof {
                assert(out@ =~= start + blank_node_key(node@));
            }
        },
        BlankNodeName::Number(id) => {
            out.push(1u8);
            write_be(out, id, 16);
            proof {
                assert(out@ =~= start + blank_node_key(node@));
            }
        },
    }
}

fn write_literal(out: &mut Vec<u8>, literal: &Literal)
    ensures
        final(out)@ == old(out)@ + literal_key(literal@),
{
    let ghost start = out@;
    match literal.form() {
        LiteralForm::Float(bits) => {
            out.push(3u8);
            write_be(out, bits as u128, 4);
        },
        LiteralForm::Double(bits) => {
            out.push(4u8);
            write_be(out, bits as u128, 8);
        },
        LiteralForm::Text(value) => {
            match literal.language() {
                Some(language) => {
                    out.push(1u8);
                    write_text(out, value);
                    write_text(out, language);
                },
                None => {
                    if literal.is_typed_text() {
                        out.push(2u8);
                        write_text(out, value);
                        write_text(out, literal.datatype());
                    } else {
                        out.push(0u8);
                        write_text(out, value);
                    }
                },
            }
        },
    }
    proof {
        assert(out@ =~= start + literal_key(literal@));
    }
}

fn write_term(out: &mut Vec<u8>, term: &Term)
    ensures
        final(out)@ == old(out)@ + term_key(term@),
    decreases *term, 0nat,
{
    let ghost start = out@;
    match term {
        Term::NamedNode(node) => {
            out.push(0u8);
            write_text(out, node.as_str());
        },
        Term::BlankNode(node) => {
            out.push(1u8);
            write_blank_node(out, node);
        },
        Term::Literal(literal) => {
            out.push(2u8);
            write_literal(out, literal);
        },
        Term::Triple(triple) => {
            out.push(3u8);
            write_triple(out, triple);
        },
    }
    proof {
        assert(out@ =~= start + term_key(term@));
    }
}

fn write_subject(out: &mut Vec<u8>, subject: &Subject)
    ensures
        final(out)@ == old(out)@ + subject_key(subject@),
    decreases *subject, 0nat,
{
    let ghost start = out@;
    match subject {
        Subject::NamedNode(node) => {
            out.push(0u8);
            write_text(out, node.as_str());
        },
        Subject::BlankNode(node) => {
            out.push(1u8);
            write_blank_node(out, node);
        },
        Subject::Triple(triple) => {
            out.push(3u8);
            write_triple(out, triple);
        },
    }
    proof {
        assert(out@ =~= start + subject_key(subject@));
    }
}

fn write_triple(out: &mut Vec<u8>, triple: &Triple)
    ensures
        final(out)@ == old(out)@ + triple_key_bytes(triple@),
    decreases *triple, 1nat,
{
    let ghost start = out@;
    write_subject(out, &triple.subject);
    write_text(out, triple.predicate.as_str());
    write_term(out, &triple.object);
    proof {
        assert(out@ =~= start + triple_key_bytes(triple@));
    }
}

/// The key of a triple.
pub fn triple_key(triple: &Triple) -> (r: Vec<u8>)
    ensures
        r@ == triple_key_bytes(triple@),
{
    let mut out: Vec<u8> = Vec::new();
    write_triple(&mut out, triple);
    proof {
        assert(out@ =~= triple_key_bytes(triple@));
    }
    out
}

} // verus!

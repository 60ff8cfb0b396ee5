//! The encoded terms that stand where a term of their kind may stand: what
//! the encoding of a quad gives, and what can be decoded over a table that
//! holds the texts.

use crate::model::triple::{QuadView, SubjectView, TermView, TripleView};
use crate::storage::numeric_encoder::{
    decoded_graph_name, decoded_named_node, decoded_quad, decoded_subject, decoded_term,
    decoded_triple, encoded_hashes, encoded_literal, encoded_quad, encoded_subject, encoded_term,
    encoded_triple, lemma_typed_native_encoding, EncodedQuad, EncodedTerm, EncodedTriple,
};
use vstd::prelude::*;

verus! {

/// Whether an encoded term is that of a blank node.
pub open spec fn is_blank(encoded: EncodedTerm) -> bool {
    encoded is NumericalBlankNode || encoded is SmallBlankNode || encoded is BigBlankNode
}

/// Whether an encoded term may stand as the object of a triple: it is not
/// the default graph, and a quoted triple has its terms in their places.
pub open spec fn term_ok(encoded: EncodedTerm) -> bool
    decreases encoded,
{
    match encoded {
        EncodedTerm::DefaultGraph => false,
        EncodedTerm::Triple(triple) => triple_ok(*triple),
        _ => true,
    }
}

/// Whether an encoded term may stand as the subject of a triple: an IRI, a
/// blank node, or a quoted triple with its terms in their places.
pub open spec fn subject_ok(encoded: EncodedTerm) -> bool
    decreases encoded,
{
    match encoded {
        EncodedTerm::NamedNode { .. } => true,
        EncodedTerm::NumericalBlankNode { .. } => true,
        EncodedTerm::SmallBlankNode(_) => true,
        EncodedTerm::BigBlankNode { .. } => true,
        EncodedTerm::Triple(triple) => triple_ok(*triple),
        _ => false,
    }
}

/// Whether the terms of an encoded triple stand in their places.
pub open spec fn triple_ok(encoded: EncodedTriple) -> bool
    decreases encoded,
{
    subject_ok(encoded.subject) && encoded.predicate is NamedNode && term_ok(encoded.object)
}

/// Whether the terms of an encoded quad stand in their places.
pub open spec fn quad_ok(encoded: EncodedQuad) -> bool {
    &&& subject_ok(encoded.subject)
    &&& encoded.predicate is NamedNode
    &&& term_ok(encoded.object)
    &&& encoded.graph_name is DefaultGraph || encoded.graph_name is NamedNode || is_blank(
        encoded.graph_name,
    )
}

/// Whether a table holds a text under each of some identifiers.
pub open spec fn holds_all(strings: Map<u128, Seq<char>>, hashes: Seq<u128>) -> bool {
    forall|i: int| 0 <= i < hashes.len() ==> strings.contains_key(#[trigger] hashes[i])
}

proof fn lemma_holds_parts(strings: Map<u128, Seq<char>>, a: Seq<u128>, b: Seq<u128>)
    requires
        holds_all(strings, a + b),
    ensures
        holds_all(strings, a),
        holds_all(strings, b),
{
    assert forall|i: int| 0 <= i < a.len() implies strings.contains_key(#[trigger] a[i]) by {
        assert((a + b)[i] == a[i]);
    }
    assert forall|i: int| 0 <= i < b.len() implies strings.contains_key(#[trigger] b[i]) by {
        assert((a + b)[a.len() + i] == b[i]);
    }
}

/// The encoding of a literal is that of a literal.
proof fn lemma_encoded_literal_ok(literal: crate::model::literal::LiteralView)
    ensures
        term_ok(encoded_literal(literal)),
        !(encoded_literal(literal) is Triple),
        !subject_ok(encoded_literal(literal)),
{
    lemma_typed_native_encoding(literal.value(), literal.datatype());
}

/// The encoding of a term stands where a term may stand.
pub proof fn lemma_encoded_term_ok(term: TermView)
    ensures
        term_ok(encoded_term(term)),
    decreases term,
{
    match term {
        TermView::Literal(literal) => lemma_encoded_literal_ok(literal),
        TermView::Triple(triple) => lemma_encoded_triple_ok(*triple),
        _ => {},
    }
}

/// The encoding of a subject stands where a subject may stand.
pub proof fn lemma_encoded_subject_ok(subject: SubjectView)
    ensures
        subject_ok(encoded_subject(subject)),
    decreases subject,
{
    match subject {
        SubjectView::Triple(triple) => lemma_encoded_triple_ok(*triple),
        _ => {},
    }
}

/// The terms of the encoding of a triple stand in their places.
pub proof fn lemma_encoded_triple_ok(triple: TripleView)
    ensures
        triple_ok(encoded_triple(triple)),
    decreases triple,
{
    lemma_encoded_subject_ok(triple.subject);
    lemma_encoded_term_ok(triple.object);
}

/// The terms of the encoding of a quad stand in their places.
pub proof fn lemma_encoded_quad_ok(quad: QuadView)
    ensures
        quad_ok(encoded_quad(quad)),
{
    lemma_encoded_subject_ok(quad.subject);
    lemma_encoded_term_ok(quad.object);
}

/// An encoded term that may stand as an object has a decoding over a table
/// that holds the texts to which it refers.
pub proof fn lemma_term_decodes(encoded: EncodedTerm, strings: Map<u128, Seq<char>>)
    requires
        term_ok(encoded),
        holds_all(strings, encoded_hashes(encoded)),
    ensures
        decoded_term(encoded, strings) is Ok,
    decreases encoded,
{
    let hashes = encoded_hashes(encoded);
    match encoded {
        EncodedTerm::Triple(triple) => lemma_triple_decodes(*triple, strings),
        EncodedTerm::BigBigLangStringLiteral { .. } => {
            assert(strings.contains_key(hashes[0]) && strings.contains_key(hashes[1]));
        },
        EncodedTerm::BigTypedLiteral { .. } => {
            assert(strings.contains_key(hashes[0]) && strings.contains_key(hashes[1]));
        },
        _ => {
            if hashes.len() > 0 {
                assert(strings.contains_key(hashes[0]));
            }
        },
    }
}

/// An encoded term that may stand as a subject has a decoding as a subject
/// over a table that holds the texts to which it refers.
pub proof fn lemma_subject_decodes(encoded: EncodedTerm, strings: Map<u128, Seq<char>>)
    requires
        subject_ok(encoded),
        holds_all(strings, encoded_hashes(encoded)),
    ensures
        decoded_subject(encoded, strings) is Ok,
        decoded_term(encoded, strings) is Ok,
        term_ok(encoded),
    decreases encoded,
{
    let hashes = encoded_hashes(encoded);
    match encoded {
        EncodedTerm::Triple(triple) => lemma_triple_decodes(*triple, strings),
        _ => {
            if hashes.len() > 0 {
                assert(strings.contains_key(hashes[0]));
            }
        },
    }
}

/// The encoding of an IRI has a decoding as an IRI over a table that holds
/// its text.
pub proof fn lemma_named_node_decodes(encoded: EncodedTerm, strings: Map<u128, Seq<char>>)
    requires
        encoded is NamedNode,
        holds_all(strings, encoded_hashes(encoded)),
    ensures
        decoded_named_node(encoded, strings) is Ok,
        decoded_term(encoded, strings) is Ok,
{
    assert(strings.contains_key(encoded_hashes(encoded)[0]));
}

/// An encoded triple whose terms stand in their places has a decoding over
/// a table that holds the texts to which it refers.
pub proof fn lemma_triple_decodes(encoded: EncodedTriple, strings: Map<u128, Seq<char>>)
    requires
        triple_ok(encoded),
        holds_all(
            strings,
            encoded_hashes(encoded.subject) + encoded_hashes(encoded.predicate) + encoded_hashes(
                encoded.object,
            ),
        ),
    ensures
        decoded_triple(encoded, strings) is Ok,
    decreases encoded,
{
    let s = encoded_hashes(encoded.subject);
    let p = encoded_hashes(encoded.predicate);
    let o = encoded_hashes(encoded.object);
    lemma_holds_parts(strings, s + p, o);
    lemma_holds_parts(strings, s, p);
    lemma_subject_decodes(encoded.subject, strings);
    lemma_named_node_decodes(encoded.predicate, strings);
    lemma_term_decodes(encoded.object, strings);
}

/// The name of a graph has a decoding over a table that holds its text.
pub proof fn lemma_graph_name_decodes(encoded: EncodedTerm, strings: Map<u128, Seq<char>>)
    requires
        encoded is DefaultGraph || encoded is NamedNode || is_blank(encoded),
        holds_all(strings, encoded_hashes(encoded)),
    ensures
        decoded_graph_name(encoded, strings) is Ok,
        !(encoded is DefaultGraph) ==> decoded_term(encoded, strings) is Ok,
{
    if encoded is NamedNode {
        lemma_named_node_decodes(encoded, strings);
    } else if !(encoded is DefaultGraph) {
        lemma_subject_decodes(encoded, strings);
    }
}

/// An encoded quad whose terms stand in their places has a decoding over a
/// table that holds the texts to which it refers, and so has each of its
/// terms.
pub proof fn lemma_quad_decodes(encoded: EncodedQuad, strings: Map<u128, Seq<char>>)
    requires
        quad_ok(encoded),
        holds_all(strings, encoded_hashes(encoded.subject)),
        holds_all(strings, encoded_hashes(encoded.predicate)),
        holds_all(strings, encoded_hashes(encoded.object)),
        holds_all(strings, encoded_hashes(encoded.graph_name)),
    ensures
        decoded_quad(encoded, strings) is Ok,
        decoded_term(encoded.subject, strings) is Ok,
        decoded_term(encoded.predicate, strings) is Ok,
        decoded_term(encoded.object, strings) is Ok,
        !(encoded.graph_name is DefaultGraph) ==> decoded_term(encoded.graph_name, strings) is Ok,
{
    lemma_subject_decodes(encoded.subject, strings);
    lemma_named_node_decodes(encoded.predicate, strings);
    lemma_term_decodes(encoded.object, strings);
    lemma_graph_name_decodes(encoded.graph_name, strings);
}

} // verus!

//! Decoding what was encoded gives the term back.

use crate::model::blank_node::{blank_node_of_label, BlankNodeView};
use crate::model::literal::{typed_literal_of, LiteralView};
use crate::model::triple::{
    subject_wf, term_wf, triple_wf, GraphNameView, QuadView, SubjectView, TermView, TripleView,
};
use crate::model::vocab::{
    is_integer_datatype, rdf_lang_string, xsd_boolean, xsd_integer, xsd_string,
};
use crate::model::canonical::{
    duration_is_valid, lemma_date_time_round_trip, lemma_duration_round_trip,
    lemma_read_date_time_is_valid, lemma_read_duration_is_valid,
};
use crate::storage::numeric_encoder::is_native;
use vstd::utf8::encode_utf8;
use crate::model::date_time::{
    date_time_bytes, date_time_text, fields_are_valid, lemma_date_time_bytes_ascii,
    DateTimeFields, DateTimeKind,
};
use crate::model::decimal::{decimal_bytes, decimal_text, lemma_decimal_round_trip, Decimal};
use crate::model::duration::{
    duration_bytes, duration_text, lemma_duration_bytes_ascii, Duration, DurationKind,
};
use crate::model::vocab::{
    xsd_date, xsd_date_time, xsd_day_time_duration, xsd_duration, xsd_g_day, xsd_g_month,
    xsd_g_month_day, xsd_g_year, xsd_g_year_month, xsd_time, xsd_year_month_duration,
};
use crate::storage::numeric_encoder::{
    date_time_term, duration_term, encoded_date_time, encoded_duration,
};
use crate::model::lexical::lemma_ascii_text;
use crate::model::vocab::xsd_decimal;
use crate::model::xsd::{boolean_of_text, boolean_text, integer_text, lemma_integer_round_trip};
use crate::storage::numeric_encoder::typed_native_encoding;
use crate::storage::numeric_encoder::{
    blank_node_strings, decoded_graph_name, decoded_quad, decoded_subject, decoded_term,
    decoded_triple, encoded_blank_node, encoded_graph_name, encoded_literal, encoded_named_node,
    encoded_quad, encoded_subject, encoded_term, encoded_triple, encoded_hashes,
    lemma_typed_native_encoding, literal_strings, named_node_strings, native_encoding,
    native_literal, subject_strings, term_strings, triple_strings, DecodeFailure, EncodedTerm,
    StrRef,
};
use crate::storage::ref_count::hashes_of;
use crate::storage::numeric_encoder::{table_insert_all};
use crate::storage::string_store::{table_insert, table_texts, StrEntryView};
use crate::storage::small_string::{fits_inline, lemma_small_string_of};
use vstd::prelude::*;

verus! {

/// Whether a table holds each of some texts under its identifier.
pub open spec fn resolves(strings: Map<u128, Seq<char>>, refs: Seq<StrRef>) -> bool {
    forall|i: int|
        0 <= i < refs.len() ==> strings.contains_key((#[trigger] refs[i]).hash)
            && strings[refs[i].hash] == refs[i].text
}

/// Whether a literal is written as the store writes it: where the store
/// reads the literal as a value of a datatype that it keeps natively, the
/// literal is that value in its canonical lexical form, with the datatype
/// under which the store gives such values back. The store reads other
/// writings of these values too, and gives them back in this one: `true` for
/// the boolean `1`, `7` of type `xsd:integer` for `+07` of type `xsd:byte`.
pub open spec fn literal_is_canonical(literal: LiteralView) -> bool {
    match literal {
        LiteralView::Typed { .. } => match native_encoding(literal) {
            Some(encoded) => match native_literal(encoded) {
                Some(back) => back == literal,
                None => true,
            },
            None => true,
        },
        _ => true,
    }
}

/// Whether every literal in a term is written as the store writes it.
pub open spec fn term_is_canonical(term: TermView) -> bool
    decreases term,
{
    match term {
        TermView::Literal(literal) => literal_is_canonical(literal),
        TermView::Triple(triple) => triple_is_canonical(*triple),
        _ => true,
    }
}

pub open spec fn subject_is_canonical(subject: SubjectView) -> bool
    decreases subject,
{
    match subject {
        SubjectView::Triple(triple) => triple_is_canonical(*triple),
        _ => true,
    }
}

pub open spec fn triple_is_canonical(triple: TripleView) -> bool
    decreases triple,
{
    subject_is_canonical(triple.subject) && term_is_canonical(triple.object)
}

pub open spec fn quad_is_canonical(quad: QuadView) -> bool {
    subject_is_canonical(quad.subject) && term_is_canonical(quad.object)
}

proof fn lemma_resolves_concat(strings: Map<u128, Seq<char>>, a: Seq<StrRef>, b: Seq<StrRef>)
    requires
        resolves(strings, a + b),
    ensures
        resolves(strings, a),
        resolves(strings, b),
{
    assert forall|i: int| 0 <= i < a.len() implies strings.contains_key((#[trigger] a[i]).hash)
        && strings[a[i].hash] == a[i].text by {
        assert((a + b)[i] == a[i]);
    }
    assert forall|i: int| 0 <= i < b.len() implies strings.contains_key((#[trigger] b[i]).hash)
        && strings[b[i].hash] == b[i].text by {
        assert((a + b)[a.len() + i] == b[i]);
    }
}

proof fn lemma_datatypes_differ()
    ensures
        xsd_string() != rdf_lang_string(),
        xsd_string() != xsd_boolean(),
{
    reveal_strlit("http://www.w3.org/1999/02/22-rdf-syntax-ns#langString");
    reveal_strlit("http://www.w3.org/2001/XMLSchema#string");
    reveal_strlit("http://www.w3.org/2001/XMLSchema#boolean");
    assert(xsd_string().len() == 39);
    assert(rdf_lang_string().len() == 53);
    assert(xsd_boolean().len() == 40);
}

/// Decoding the encoding of an IRI gives the IRI back, over a table that
/// holds it.
pub proof fn lemma_decode_encode_named_node(iri: Seq<char>, strings: Map<u128, Seq<char>>)
    requires
        resolves(strings, named_node_strings(iri, encoded_named_node(iri))),
    ensures
        decoded_term(encoded_named_node(iri), strings) == Ok::<TermView, DecodeFailure>(
            TermView::NamedNode(iri),
        ),
{
    let refs = named_node_strings(iri, encoded_named_node(iri));
    assert(refs[0].text == iri);
}

/// Decoding the encoding of a blank node gives the node back, over a table
/// that holds its label where the label is long.
pub proof fn lemma_decode_encode_blank_node(node: BlankNodeView, strings: Map<u128, Seq<char>>)
    requires
        node.wf(),
        resolves(strings, blank_node_strings(node, encoded_blank_node(node))),
    ensures
        decoded_term(encoded_blank_node(node), strings) == Ok::<TermView, DecodeFailure>(
            TermView::BlankNode(node),
        ),
{
    match node {
        BlankNodeView::Anonymous(_) => {},
        BlankNodeView::Named(label) => {
            if fits_inline(label) {
                lemma_small_string_of(label);
            } else {
                let refs = blank_node_strings(node, encoded_blank_node(node));
                assert(refs[0].text == label);
            }
            assert(blank_node_of_label(label) == node);
        },
    }
}

/// Decoding the encoding of a literal gives the literal back, over a table
/// that holds its long texts, where the literal is written as the store
/// writes it.
pub proof fn lemma_decode_encode_literal(literal: LiteralView, strings: Map<u128, Seq<char>>)
    requires
        literal.wf(),
        literal_is_canonical(literal),
        resolves(strings, literal_strings(literal, encoded_literal(literal))),
    ensures
        decoded_term(encoded_literal(literal), strings) == Ok::<TermView, DecodeFailure>(
            TermView::Literal(literal),
        ),
{
    lemma_datatypes_differ();
    lemma_typed_native_encoding(literal.value(), literal.datatype());
    let encoded = encoded_literal(literal);
    let refs = literal_strings(literal, encoded);
    match literal {
        LiteralView::Float { .. } => {},
        LiteralView::Double { .. } => {},
        LiteralView::Simple { value } => {
            if fits_inline(value) {
                lemma_small_string_of(value);
            } else {
                assert(refs[0].text == value);
            }
        },
        LiteralView::LanguageTagged { value, language } => {
            if fits_inline(value) {
                lemma_small_string_of(value);
            }
            if fits_inline(language) {
                lemma_small_string_of(language);
            }
            if !fits_inline(value) {
                assert(refs[0].text == value);
                if !fits_inline(language) {
                    assert(refs[1].text == language);
                }
            } else if !fits_inline(language) {
                assert(refs[0].text == language);
            }
        },
        LiteralView::Typed { value, datatype } => {
            if native_encoding(literal) is Some {
            } else {
                if fits_inline(value) {
                    lemma_small_string_of(value);
                    assert(refs[0].text == datatype);
                } else {
                    assert(refs[0].text == value);
                    assert(refs[1].text == datatype);
                }
            }
        },
    }
}

/// Decoding the encoding of a term gives the term back: for every term
/// that is well formed and written as the store writes it, over every table
/// that holds the texts which the encoding refers to by identifier.
pub proof fn lemma_decode_encode_term(term: TermView, strings: Map<u128, Seq<char>>)
    requires
        term_wf(term),
        term_is_canonical(term),
        resolves(strings, term_strings(term, encoded_term(term))),
    ensures
        decoded_term(encoded_term(term), strings) == Ok::<TermView, DecodeFailure>(term),
    decreases term,
{
    match term {
        TermView::NamedNode(iri) => lemma_decode_encode_named_node(iri, strings),
        TermView::BlankNode(node) => lemma_decode_encode_blank_node(node, strings),
        TermView::Literal(literal) => lemma_decode_encode_literal(literal, strings),
        TermView::Triple(triple) => {
            lemma_decode_encode_triple(*triple, strings);
        },
    }
}

/// Decoding the encoding of a subject gives the subject back.
pub proof fn lemma_decode_encode_subject(subject: SubjectView, strings: Map<u128, Seq<char>>)
    requires
        subject_wf(subject),
        subject_is_canonical(subject),
        resolves(strings, subject_strings(subject, encoded_subject(subject))),
    ensures
        decoded_subject(encoded_subject(subject), strings) == Ok::<SubjectView, DecodeFailure>(
            subject,
        ),
    decreases subject,
{
    match subject {
        SubjectView::NamedNode(iri) => lemma_decode_encode_named_node(iri, strings),
        SubjectView::BlankNode(node) => lemma_decode_encode_blank_node(node, strings),
        SubjectView::Triple(triple) => {
            lemma_decode_encode_triple(*triple, strings);
        },
    }
}

/// Decoding the encoding of a triple gives the triple back.
pub proof fn lemma_decode_encode_triple(triple: TripleView, strings: Map<u128, Seq<char>>)
    requires
        triple_wf(triple),
        triple_is_canonical(triple),
        resolves(strings, triple_strings(triple, encoded_triple(triple))),
    ensures
        decoded_triple(encoded_triple(triple), strings) == Ok::<TripleView, DecodeFailure>(triple),
    decreases triple,
{
    let encoded = encoded_triple(triple);
    let a = subject_strings(triple.subject, encoded.subject);
    let b = named_node_strings(triple.predicate, encoded.predicate);
    let c = term_strings(triple.object, encoded.object);
    lemma_resolves_concat(strings, a + b, c);
    lemma_resolves_concat(strings, a, b);
    lemma_decode_encode_subject(triple.subject, strings);
    lemma_decode_encode_named_node(triple.predicate, strings);
    lemma_decode_encode_term(triple.object, strings);
}

/// Decoding the encoding of a graph name gives the name back.
pub proof fn lemma_decode_encode_graph_name(name: GraphNameView, strings: Map<u128, Seq<char>>)
    requires
        name.wf(),
        match name {
            GraphNameView::NamedNode(iri) => resolves(
                strings,
                named_node_strings(iri, encoded_named_node(iri)),
            ),
            GraphNameView::BlankNode(node) => resolves(
                strings,
                blank_node_strings(node, encoded_blank_node(node)),
            ),
            GraphNameView::DefaultGraph => true,
        },
    ensures
        decoded_graph_name(encoded_graph_name(name), strings) == Ok::<
            GraphNameView,
            DecodeFailure,
        >(name),
{
    match name {
        GraphNameView::NamedNode(iri) => lemma_decode_encode_named_node(iri, strings),
        GraphNameView::BlankNode(node) => lemma_decode_encode_blank_node(node, strings),
        GraphNameView::DefaultGraph => {},
    }
}

proof fn lemma_hashes_of_concat(a: Seq<StrRef>, b: Seq<StrRef>)
    ensures
        hashes_of(a + b) == hashes_of(a) + hashes_of(b),
{
    assert(hashes_of(a + b) =~= hashes_of(a) + hashes_of(b));
}

/// The references that are interned for a literal are those that its
/// encoding holds.
pub proof fn lemma_literal_strings_hashes(literal: LiteralView)
    ensures
        hashes_of(literal_strings(literal, encoded_literal(literal))) == encoded_hashes(
            encoded_literal(literal),
        ),
{
    let encoded = encoded_literal(literal);
    lemma_typed_native_encoding(literal.value(), literal.datatype());
    assert(hashes_of(literal_strings(literal, encoded)) =~= encoded_hashes(encoded));
}

/// The references that are interned for a term are those that its encoding
/// holds, in the same order.
pub proof fn lemma_term_strings_hashes(term: TermView)
    ensures
        hashes_of(term_strings(term, encoded_term(term))) == encoded_hashes(encoded_term(term)),
    decreases term,
{
    let encoded = encoded_term(term);
    match term {
        TermView::NamedNode(_) => {
            assert(hashes_of(term_strings(term, encoded)) =~= encoded_hashes(encoded));
        },
        TermView::BlankNode(_) => {
            assert(hashes_of(term_strings(term, encoded)) =~= encoded_hashes(encoded));
        },
        TermView::Literal(literal) => lemma_literal_strings_hashes(literal),
        TermView::Triple(triple) => lemma_triple_strings_hashes(*triple),
    }
}

/// The references that are interned for a subject are those that its
/// encoding holds.
pub proof fn lemma_subject_strings_hashes(subject: SubjectView)
    ensures
        hashes_of(subject_strings(subject, encoded_subject(subject))) == encoded_hashes(
            encoded_subject(subject),
        ),
    decreases subject,
{
    let encoded = encoded_subject(subject);
    match subject {
        SubjectView::NamedNode(_) => {
            assert(hashes_of(subject_strings(subject, encoded)) =~= encoded_hashes(encoded));
        },
        SubjectView::BlankNode(_) => {
            assert(hashes_of(subject_strings(subject, encoded)) =~= encoded_hashes(encoded));
        },
        SubjectView::Triple(triple) => lemma_triple_strings_hashes(*triple),
    }
}

/// The references that are interned for an IRI are those that its encoding
/// holds.
pub proof fn lemma_named_node_strings_hashes(iri: Seq<char>)
    ensures
        hashes_of(named_node_strings(iri, encoded_named_node(iri))) == encoded_hashes(
            encoded_named_node(iri),
        ),
{
    let encoded = encoded_named_node(iri);
    assert(hashes_of(named_node_strings(iri, encoded)) =~= encoded_hashes(encoded));
}

/// The references that are interned for a blank node are those that its
/// encoding holds.
pub proof fn lemma_blank_node_strings_hashes(node: BlankNodeView)
    ensures
        hashes_of(blank_node_strings(node, encoded_blank_node(node))) == encoded_hashes(
            encoded_blank_node(node),
        ),
{
    let encoded = encoded_blank_node(node);
    assert(hashes_of(blank_node_strings(node, encoded)) =~= encoded_hashes(encoded));
}

/// The references that are interned for a triple are those that its
/// encoding holds: as a quoted triple it holds those of its three terms.
pub proof fn lemma_triple_strings_hashes(triple: TripleView)
    ensures
        hashes_of(triple_strings(triple, encoded_triple(triple))) == encoded_hashes(
            EncodedTerm::Triple(Box::new(encoded_triple(triple))),
        ),
    decreases triple,
{
    let encoded = encoded_triple(triple);
    let a = subject_strings(triple.subject, encoded.subject);
    let b = named_node_strings(triple.predicate, encoded.predicate);
    let c = term_strings(triple.object, encoded.object);
    lemma_subject_strings_hashes(triple.subject);
    lemma_named_node_strings_hashes(triple.predicate);
    lemma_term_strings_hashes(triple.object);
    lemma_hashes_of_concat(a, b);
    lemma_hashes_of_concat(a + b, c);
}

/// Decoding the encoding of a quad gives the quad back: for every quad that
/// is well formed and written as the store writes it, over every table that
/// holds the texts which the encoding refers to by identifier.
pub proof fn lemma_decode_encode_quad(quad: QuadView, strings: Map<u128, Seq<char>>)
    requires
        quad.wf(),
        quad_is_canonical(quad),
        resolves(strings, subject_strings(quad.subject, encoded_subject(quad.subject))),
        resolves(strings, named_node_strings(quad.predicate, encoded_named_node(quad.predicate))),
        resolves(strings, term_strings(quad.object, encoded_term(quad.object))),
        match quad.graph_name {
            GraphNameView::NamedNode(iri) => resolves(
                strings,
                named_node_strings(iri, encoded_named_node(iri)),
            ),
            GraphNameView::BlankNode(node) => resolves(
                strings,
                blank_node_strings(node, encoded_blank_node(node)),
            ),
            GraphNameView::DefaultGraph => true,
        },
    ensures
        decoded_quad(encoded_quad(quad), strings) == Ok::<QuadView, DecodeFailure>(quad),
{
    lemma_decode_encode_subject(quad.subject, strings);
    lemma_decode_encode_named_node(quad.predicate, strings);
    lemma_decode_encode_term(quad.object, strings);
    lemma_decode_encode_graph_name(quad.graph_name, strings);
}

/// Whether no two texts stand under one identifier, among some references
/// and the texts of a table.
pub open spec fn no_collision(table: Map<u128, StrEntryView>, refs: Seq<StrRef>) -> bool {
    &&& forall|i: int|
        0 <= i < refs.len() && table.contains_key((#[trigger] refs[i]).hash)
            ==> table[refs[i].hash].text == refs[i].text
    &&& forall|i: int, j: int|
        0 <= i < refs.len() && 0 <= j < refs.len() && (#[trigger] refs[i]).hash == (
        #[trigger] refs[j]).hash ==> refs[i].text == refs[j].text
}

/// A table that has taken references to some texts holds each of the texts
/// under its identifier, where no two texts stand under one identifier.
pub proof fn lemma_interned_resolves(table: Map<u128, StrEntryView>, refs: Seq<StrRef>)
    requires
        no_collision(table, refs),
    ensures
        resolves(table_texts(table_insert_all(table, refs)), refs),
        forall|hash: u128|
            table.contains_key(hash) ==> #[trigger] table_insert_all(table, refs).contains_key(
                hash,
            ) && table_insert_all(table, refs)[hash].text == table[hash].text,
    decreases refs.len(),
{
    if refs.len() > 0 {
        let front = refs.drop_last();
        let last = refs.last();
        assert(no_collision(table, front)) by {
            assert forall|i: int|
                0 <= i < front.len() && table.contains_key(
                    (#[trigger] front[i]).hash,
                ) implies table[front[i].hash].text == front[i].text by {
                assert(front[i] == refs[i]);
            }
            assert forall|i: int, j: int|
                0 <= i < front.len() && 0 <= j < front.len() && (#[trigger] front[i]).hash == (
                #[trigger] front[j]).hash implies front[i].text == front[j].text by {
                assert(front[i] == refs[i] && front[j] == refs[j]);
            }
        }
        lemma_interned_resolves(table, front);
        let before = table_insert_all(table, front);
        let after = table_insert_all(table, refs);
        assert(after == table_insert(before, last.hash, last.text));
        assert(before.contains_key(last.hash) ==> before[last.hash].text == last.text) by {
            if before.contains_key(last.hash) {
                if table.contains_key(last.hash) {
                    assert(refs[refs.len() - 1] == last);
                } else {
                    lemma_inserted_text(table, front, last.hash);
                    let k = choose|k: int| 0 <= k < front.len() && (#[trigger] front[k]).hash
                        == last.hash && before[last.hash].text == front[k].text;
                    assert(refs[k] == front[k]);
                    assert(refs[refs.len() - 1] == last);
                }
            }
        }
        assert forall|i: int| 0 <= i < refs.len() implies table_texts(after).contains_key(
            (#[trigger] refs[i]).hash,
        ) && table_texts(after)[refs[i].hash] == refs[i].text by {
            if i < front.len() {
                assert(front[i] == refs[i]);
                assert(table_texts(before).contains_key(front[i].hash));
            }
        }
    }
}

/// An entry that the references to some texts have brought into a table
/// holds one of these texts.
proof fn lemma_inserted_text(table: Map<u128, StrEntryView>, refs: Seq<StrRef>, hash: u128)
    requires
        !table.contains_key(hash),
        table_insert_all(table, refs).contains_key(hash),
    ensures
        exists|k: int|
            0 <= k < refs.len() && (#[trigger] refs[k]).hash == hash && table_insert_all(
                table,
                refs,
            )[hash].text == refs[k].text,
    decreases refs.len(),
{
    if refs.len() > 0 {
        let front = refs.drop_last();
        let before = table_insert_all(table, front);
        if before.contains_key(hash) {
            lemma_inserted_text(table, front, hash);
            let k = choose|k: int| 0 <= k < front.len() && (#[trigger] front[k]).hash == hash
                && before[hash].text == front[k].text;
            assert(refs[k] == front[k]);
        } else {
            assert(refs[refs.len() - 1].hash == hash);
        }
    }
}

proof fn lemma_encode_decode_boolean(value: bool)
    ensures
        encoded_literal(typed_literal_of(boolean_text(value), xsd_boolean()))
            == EncodedTerm::BooleanLiteral(value),
        typed_literal_of(boolean_text(value), xsd_boolean()).wf(),
{
    lemma_datatypes_differ();
    reveal_strlit("http://www.w3.org/1999/02/22-rdf-syntax-ns#langString");
    reveal_strlit("http://www.w3.org/2001/XMLSchema#boolean");
    assert(rdf_lang_string().len() == 53);
    assert(xsd_boolean().len() == 40);
    reveal_strlit("true");
    reveal_strlit("false");
    reveal_strlit("1");
    reveal_strlit("0");
    assert("true"@.len() == 4 && "false"@.len() == 5 && "1"@.len() == 1 && "0"@.len() == 1);
    assert(boolean_of_text(boolean_text(value)) == Some(value));
}

proof fn lemma_encode_decode_integer(value: i64)
    ensures
        encoded_literal(typed_literal_of(integer_text(value as int), xsd_integer()))
            == EncodedTerm::IntegerLiteral(value),
        typed_literal_of(integer_text(value as int), xsd_integer()).wf(),
{
    reveal_strlit("http://www.w3.org/1999/02/22-rdf-syntax-ns#langString");
    reveal_strlit("http://www.w3.org/2001/XMLSchema#string");
    reveal_strlit("http://www.w3.org/2001/XMLSchema#boolean");
    reveal_strlit("http://www.w3.org/2001/XMLSchema#integer");
    assert(xsd_string().len() == 39);
    assert(rdf_lang_string().len() == 53);
    assert(xsd_integer().len() == 40);
    assert(xsd_boolean()[33] == 'b');
    assert(xsd_integer()[33] == 'i');
    lemma_integer_round_trip(value);
    assert(typed_native_encoding(integer_text(value as int), xsd_integer()) == Some(
        EncodedTerm::IntegerLiteral(value),
    )) by {
        reveal(typed_native_encoding);
    }
}

proof fn lemma_decimal_is_no_integer_datatype()
    ensures
        !is_integer_datatype(xsd_decimal()),
{
    reveal_strlit("http://www.w3.org/2001/XMLSchema#decimal");
    reveal_strlit("http://www.w3.org/2001/XMLSchema#integer");
    assert(xsd_decimal().len() == 40);
    assert(xsd_decimal()[33] == 'd');
    assert("http://www.w3.org/2001/XMLSchema#integer"@[33] == 'i');
    reveal_strlit("http://www.w3.org/2001/XMLSchema#byte");
    assert("http://www.w3.org/2001/XMLSchema#byte"@.len() == 37);
    reveal_strlit("http://www.w3.org/2001/XMLSchema#short");
    assert("http://www.w3.org/2001/XMLSchema#short"@.len() == 38);
    reveal_strlit("http://www.w3.org/2001/XMLSchema#int");
    assert("http://www.w3.org/2001/XMLSchema#int"@.len() == 36);
    reveal_strlit("http://www.w3.org/2001/XMLSchema#long");
    assert("http://www.w3.org/2001/XMLSchema#long"@.len() == 37);
    reveal_strlit("http://www.w3.org/2001/XMLSchema#unsignedByte");
    assert("http://www.w3.org/2001/XMLSchema#unsignedByte"@.len() == 45);
    reveal_strlit("http://www.w3.org/2001/XMLSchema#unsignedShort");
    assert("http://www.w3.org/2001/XMLSchema#unsignedShort"@.len() == 46);
    reveal_strlit("http://www.w3.org/2001/XMLSchema#unsignedInt");
    assert("http://www.w3.org/2001/XMLSchema#unsignedInt"@.len() == 44);
    reveal_strlit("http://www.w3.org/2001/XMLSchema#unsignedLong");
    assert("http://www.w3.org/2001/XMLSchema#unsignedLong"@.len() == 45);
    reveal_strlit("http://www.w3.org/2001/XMLSchema#positiveInteger");
    assert("http://www.w3.org/2001/XMLSchema#positiveInteger"@.len() == 48);
    reveal_strlit("http://www.w3.org/2001/XMLSchema#negativeInteger");
    assert("http://www.w3.org/2001/XMLSchema#negativeInteger"@.len() == 48);
    reveal_strlit("http://www.w3.org/2001/XMLSchema#nonPositiveInteger");
    assert("http://www.w3.org/2001/XMLSchema#nonPositiveInteger"@.len() == 51);
    reveal_strlit("http://www.w3.org/2001/XMLSchema#nonNegativeInteger");
    assert("http://www.w3.org/2001/XMLSchema#nonNegativeInteger"@.len() == 51);
}

proof fn lemma_encode_decode_decimal(value: Decimal)
    ensures
        encoded_literal(typed_literal_of(decimal_text(value), xsd_decimal()))
            == EncodedTerm::DecimalLiteral(value),
        typed_literal_of(decimal_text(value), xsd_decimal()).wf(),
{
    reveal_strlit("http://www.w3.org/1999/02/22-rdf-syntax-ns#langString");
    reveal_strlit("http://www.w3.org/2001/XMLSchema#string");
    reveal_strlit("http://www.w3.org/2001/XMLSchema#boolean");
    reveal_strlit("http://www.w3.org/2001/XMLSchema#decimal");
    assert(xsd_string().len() == 39);
    assert(rdf_lang_string().len() == 53);
    assert(xsd_decimal().len() == 40);
    assert(xsd_boolean()[33] == 'b');
    assert(xsd_decimal()[33] == 'd');
    lemma_decimal_round_trip(value);
    lemma_ascii_text(decimal_bytes(value));
    assert(!is_integer_datatype(xsd_decimal())) by {
        lemma_decimal_is_no_integer_datatype();
    }
    assert(typed_native_encoding(decimal_text(value), xsd_decimal()) == Some(
        EncodedTerm::DecimalLiteral(value),
    )) by {
        reveal(typed_native_encoding);
    }
}

/// What the store gives back for a boolean, an integer, a decimal, a float
/// or a double that it holds natively is written as the store writes it:
/// encoding it gives the held value back.
pub proof fn lemma_encode_decode_number(encoded: EncodedTerm)
    requires
        encoded is BooleanLiteral || encoded is IntegerLiteral || encoded is DecimalLiteral
            || encoded is FloatLiteral || encoded is DoubleLiteral,
    ensures
        native_literal(encoded) matches Some(literal) && encoded_literal(literal) == encoded
            && literal.wf() && literal_is_canonical(literal),
{
    match encoded {
        EncodedTerm::BooleanLiteral(value) => lemma_encode_decode_boolean(value),
        EncodedTerm::IntegerLiteral(value) => lemma_encode_decode_integer(value),
        EncodedTerm::DecimalLiteral(value) => lemma_encode_decode_decimal(value),
        _ => {},
    }
}

proof fn lemma_reads_date_time(value: Seq<char>)
    ensures
        typed_literal_of(value, xsd_date_time()).wf(),
        native_encoding(typed_literal_of(value, xsd_date_time())) == encoded_date_time(DateTimeKind::DateTime, value),
{
    reveal_strlit("http://www.w3.org/2001/XMLSchema#dateTime");
    assert(xsd_date_time().len() == 41);
    reveal_strlit("http://www.w3.org/1999/02/22-rdf-syntax-ns#langString");
    assert("http://www.w3.org/1999/02/22-rdf-syntax-ns#langString"@.len() == 53);
    reveal_strlit("http://www.w3.org/2001/XMLSchema#string");
    assert("http://www.w3.org/2001/XMLSchema#string"@.len() == 39);
    reveal_strlit("http://www.w3.org/2001/XMLSchema#boolean");
    assert("http://www.w3.org/2001/XMLSchema#boolean"@.len() == 40);
    reveal_strlit("http://www.w3.org/2001/XMLSchema#integer");
    assert("http://www.w3.org/2001/XMLSchema#integer"@.len() == 40);
    reveal_strlit("http://www.w3.org/2001/XMLSchema#byte");
    assert("http://www.w3.org/2001/XMLSchema#byte"@.len() == 37);
    reveal_strlit("http://www.w3.org/2001/XMLSchema#short");
    assert("http://www.w3.org/2001/XMLSchema#short"@.len() == 38);
    reveal_strlit("http://www.w3.org/2001/XMLSchema#int");
    assert("http://www.w3.org/2001/XMLSchema#int"@.len() == 36);
    reveal_strlit("http://www.w3.org/2001/XMLSchema#long");
    assert("http://www.w3.org/2001/XMLSchema#long"@.len() == 37);
    reveal_strlit("http://www.w3.org/2001/XMLSchema#unsignedByte");
    assert("http://www.w3.org/2001/XMLSchema#unsignedByte"@.len() == 45);
    reveal_strlit("http://www.w3.org/2001/XMLSchema#unsignedShort");
    assert("http://www.w3.org/2001/XMLSchema#unsignedShort"@.len() == 46);
    reveal_strlit("http://www.w3.org/2001/XMLSchema#unsignedInt");
    assert("http://www.w3.org/2001/XMLSchema#unsignedInt"@.len() == 44);
    reveal_strlit("http://www.w3.org/2001/XMLSchema#unsignedLong");
    assert("http://www.w3.org/2001/XMLSchema#unsignedLong"@.len() == 45);
    reveal_strlit("http://www.w3.org/2001/XMLSchema#positiveInteger");
    assert("http://www.w3.org/2001/XMLSchema#positiveInteger"@.len() == 48);
    reveal_strlit("http://www.w3.org/2001/XMLSchema#negativeInteger");
    assert("http://www.w3.org/2001/XMLSchema#negativeInteger"@.len() == 48);
    reveal_strlit("http://www.w3.org/2001/XMLSchema#nonPositiveInteger");
    assert("http://www.w3.org/2001/XMLSchema#nonPositiveInteger"@.len() == 51);
    reveal_strlit("http://www.w3.org/2001/XMLSchema#nonNegativeInteger");
    assert("http://www.w3.org/2001/XMLSchema#nonNegativeInteger"@.len() == 51);
    reveal_strlit("http://www.w3.org/2001/XMLSchema#decimal");
    assert("http://www.w3.org/2001/XMLSchema#decimal"@.len() == 40);
    reveal(typed_native_encoding);
}

proof fn lemma_reads_time(value: Seq<char>)
    ensures
        typed_literal_of(value, xsd_time()).wf(),
        native_encoding(typed_literal_of(value, xsd_time())) == encoded_date_time(DateTimeKind::Time, value),
{
    reveal_strlit("http://www.w3.org/2001/XMLSchema#time");
    assert(xsd_time().len() == 37);
    reveal_strlit("http://www.w3.org/1999/02/22-rdf-syntax-ns#langString");
    assert("http://www.w3.org/1999/02/22-rdf-syntax-ns#langString"@.len() == 53);
    reveal_strlit("http://www.w3.org/2001/XMLSchema#string");
    assert("http://www.w3.org/2001/XMLSchema#string"@.len() == 39);
    reveal_strlit("http://www.w3.org/2001/XMLSchema#boolean");
    assert("http://www.w3.org/2001/XMLSchema#boolean"@.len() == 40);
    reveal_strlit("http://www.w3.org/2001/XMLSchema#integer");
    assert("http://www.w3.org/2001/XMLSchema#integer"@.len() == 40);
    reveal_strlit("http://www.w3.org/2001/XMLSchema#byte");
    assert("http://www.w3.org/2001/XMLSchema#byte"@[33] == 'b');
    assert(xsd_time()[33] == 't');
    reveal_strlit("http://www.w3.org/2001/XMLSchema#short");
    assert("http://www.w3.org/2001/XMLSchema#short"@.len() == 38);
    reveal_strlit("http://www.w3.org/2001/XMLSchema#int");
    assert("http://www.w3.org/2001/XMLSchema#int"@.len() == 36);
    reveal_strlit("http://www.w3.org/2001/XMLSchema#long");
    assert("http://www.w3.org/2001/XMLSchema#long"@[33] == 'l');
    reveal_strlit("http://www.w3.org/2001/XMLSchema#unsignedByte");
    assert("http://www.w3.org/2001/XMLSchema#unsignedByte"@.len() == 45);
    reveal_strlit("http://www.w3.org/2001/XMLSchema#unsignedShort");
    assert("http://www.w3.org/2001/XMLSchema#unsignedShort"@.len() == 46);
    reveal_strlit("http://www.w3.org/2001/XMLSchema#unsignedInt");
    assert("http://www.w3.org/2001/XMLSchema#unsignedInt"@.len() == 44);
    reveal_strlit("http://www.w3.org/2001/XMLSchema#unsignedLong");
    assert("http://www.w3.org/2001/XMLSchema#unsignedLong"@.len() == 45);
    reveal_strlit("http://www.w3.org/2001/XMLSchema#positiveInteger");
    assert("http://www.w3.org/2001/XMLSchema#positiveInteger"@.len() == 48);
    reveal_strlit("http://www.w3.org/2001/XMLSchema#negativeInteger");
    assert("http://www.w3.org/2001/XMLSchema#negativeInteger"@.len() == 48);
    reveal_strlit("http://www.w3.org/2001/XMLSchema#nonPositiveInteger");
    assert("http://www.w3.org/2001/XMLSchema#nonPositiveInteger"@.len() == 51);
    reveal_strlit("http://www.w3.org/2001/XMLSchema#nonNegativeInteger");
    assert("http://www.w3.org/2001/XMLSchema#nonNegativeInteger"@.len() == 51);
    reveal_strlit("http://www.w3.org/2001/XMLSchema#decimal");
    assert("http://www.w3.org/2001/XMLSchema#decimal"@.len() == 40);
    reveal_strlit("http://www.w3.org/2001/XMLSchema#dateTime");
    assert("http://www.w3.org/2001/XMLSchema#dateTime"@.len() == 41);
    reveal_strlit("http://www.w3.org/2001/XMLSchema#dateTimeStamp");
    assert("http://www.w3.org/2001/XMLSchema#dateTimeStamp"@.len() == 46);
    reveal(typed_native_encoding);
}

proof fn lemma_reads_date(value: Seq<char>)
    ensures
        typed_literal_of(value, xsd_date()).wf(),
        native_encoding(typed_literal_of(value, xsd_date())) == encoded_date_time(DateTimeKind::Date, value),
{
    reveal_strlit("http://www.w3.org/2001/XMLSchema#date");
    assert(xsd_date().len() == 37);
    reveal_strlit("http://www.w3.org/1999/02/22-rdf-syntax-ns#langString");
    assert("http://www.w3.org/1999/02/22-rdf-syntax-ns#langString"@.len() == 53);
    reveal_strlit("http://www.w3.org/2001/XMLSchema#string");
    assert("http://www.w3.org/2001/XMLSchema#string"@.len() == 39);
    reveal_strlit("http://www.w3.org/2001/XMLSchema#boolean");
    assert("http://www.w3.org/2001/XMLSchema#boolean"@.len() == 40);
    reveal_strlit("http://www.w3.org/2001/XMLSchema#integer");
    assert("http://www.w3.org/2001/XMLSchema#integer"@.len() == 40);
    reveal_strlit("http://www.w3.org/2001/XMLSchema#byte");
    assert("http://www.w3.org/2001/XMLSchema#byte"@[33] == 'b');
    assert(xsd_date()[33] == 'd');
    reveal_strlit("http://www.w3.org/2001/XMLSchema#short");
    assert("http://www.w3.org/2001/XMLSchema#short"@.len() == 38);
    reveal_strlit("http://www.w3.org/2001/XMLSchema#int");
    assert("http://www.w3.org/2001/XMLSchema#int"@.len() == 36);
    reveal_strlit("http://www.w3.org/2001/XMLSchema#long");
    assert("http://www.w3.org/2001/XMLSchema#long"@[33] == 'l');
    reveal_strlit("http://www.w3.org/2001/XMLSchema#unsignedByte");
    assert("http://www.w3.org/2001/XMLSchema#unsignedByte"@.len() == 45);
    reveal_strlit("http://www.w3.org/2001/XMLSchema#unsignedShort");
    assert("http://www.w3.org/2001/XMLSchema#unsignedShort"@.len() == 46);
    reveal_strlit("http://www.w3.org/2001/XMLSchema#unsignedInt");
    assert("http://www.w3.org/2001/XMLSchema#unsignedInt"@.len() == 44);
    reveal_strlit("http://www.w3.org/2001/XMLSchema#unsignedLong");
    assert("http://www.w3.org/2001/XMLSchema#unsignedLong"@.len() == 45);
    reveal_strlit("http://www.w3.org/2001/XMLSchema#positiveInteger");
    assert("http://www.w3.org/2001/XMLSchema#positiveInteger"@.len() == 48);
    reveal_strlit("http://www.w3.org/2001/XMLSchema#negativeInteger");
    assert("http://www.w3.org/2001/XMLSchema#negativeInteger"@.len() == 48);
    reveal_strlit("http://www.w3.org/2001/XMLSchema#nonPositiveInteger");
    assert("http://www.w3.org/2001/XMLSchema#nonPositiveInteger"@.len() == 51);
    reveal_strlit("http://www.w3.org/2001/XMLSchema#nonNegativeInteger");
    assert("http://www.w3.org/2001/XMLSchema#nonNegativeInteger"@.len() == 51);
    reveal_strlit("http://www.w3.org/2001/XMLSchema#decimal");
    assert("http://www.w3.org/2001/XMLSchema#decimal"@.len() == 40);
    reveal_strlit("http://www.w3.org/2001/XMLSchema#dateTime");
    assert("http://www.w3.org/2001/XMLSchema#dateTime"@.len() == 41);
    reveal_strlit("http://www.w3.org/2001/XMLSchema#dateTimeStamp");
    assert("http://www.w3.org/2001/XMLSchema#dateTimeStamp"@.len() == 46);
    reveal_strlit("http://www.w3.org/2001/XMLSchema#time");
    assert("http://www.w3.org/2001/XMLSchema#time"@[33] == 't');
    reveal(typed_native_encoding);
}

proof fn lemma_reads_g_year_month(value: Seq<char>)
    ensures
        typed_literal_of(value, xsd_g_year_month()).wf(),
        native_encoding(typed_literal_of(value, xsd_g_year_month())) == encoded_date_time(DateTimeKind::GYearMonth, value),
{
    reveal_strlit("http://www.w3.org/2001/XMLSchema#gYearMonth");
    assert(xsd_g_year_month().len() == 43);
    reveal_strlit("http://www.w3.org/1999/02/22-rdf-syntax-ns#langString");
    assert("http://www.w3.org/1999/02/22-rdf-syntax-ns#langString"@.len() == 53);
    reveal_strlit("http://www.w3.org/2001/XMLSchema#string");
    assert("http://www.w3.org/2001/XMLSchema#string"@.len() == 39);
    reveal_strlit("http://www.w3.org/2001/XMLSchema#boolean");
    assert("http://www.w3.org/2001/XMLSchema#boolean"@.len() == 40);
    reveal_strlit("http://www.w3.org/2001/XMLSchema#integer");
    assert("http://www.w3.org/2001/XMLSchema#integer"@.len() == 40);
    reveal_strlit("http://www.w3.org/2001/XMLSchema#byte");
    assert("http://www.w3.org/2001/XMLSchema#byte"@.len() == 37);
    reveal_strlit("http://www.w3.org/2001/XMLSchema#short");
    assert("http://www.w3.org/2001/XMLSchema#short"@.len() == 38);
    reveal_strlit("http://www.w3.org/2001/XMLSchema#int");
    assert("http://www.w3.org/2001/XMLSchema#int"@.len() == 36);
    reveal_strlit("http://www.w3.org/2001/XMLSchema#long");
    assert("http://www.w3.org/2001/XMLSchema#long"@.len() == 37);
    reveal_strlit("http://www.w3.org/2001/XMLSchema#unsignedByte");
    assert("http://www.w3.org/2001/XMLSchema#unsignedByte"@.len() == 45);
    reveal_strlit("http://www.w3.org/2001/XMLSchema#unsignedShort");
    assert("http://www.w3.org/2001/XMLSchema#unsignedShort"@.len() == 46);
    reveal_strlit("http://www.w3.org/2001/XMLSchema#unsignedInt");
    assert("http://www.w3.org/2001/XMLSchema#unsignedInt"@.len() == 44);
    reveal_strlit("http://www.w3.org/2001/XMLSchema#unsignedLong");
    assert("http://www.w3.org/2001/XMLSchema#unsignedLong"@.len() == 45);
    reveal_strlit("http://www.w3.org/2001/XMLSchema#positiveInteger");
    assert("http://www.w3.org/2001/XMLSchema#positiveInteger"@.len() == 48);
    reveal_strlit("http://www.w3.org/2001/XMLSchema#negativeInteger");
    assert("http://www.w3.org/2001/XMLSchema#negativeInteger"@.len() == 48);
    reveal_strlit("http://www.w3.org/2001/XMLSchema#nonPositiveInteger");
    assert("http://www.w3.org/2001/XMLSchema#nonPositiveInteger"@.len() == 51);
    reveal_strlit("http://www.w3.org/2001/XMLSchema#nonNegativeInteger");
    assert("http://www.w3.org/2001/XMLSchema#nonNegativeInteger"@.len() == 51);
    reveal_strlit("http://www.w3.org/2001/XMLSchema#decimal");
    assert("http://www.w3.org/2001/XMLSchema#decimal"@.len() == 40);
    reveal_strlit("http://www.w3.org/2001/XMLSchema#dateTime");
    assert("http://www.w3.org/2001/XMLSchema#dateTime"@.len() == 41);
    reveal_strlit("http://www.w3.org/2001/XMLSchema#dateTimeStamp");
    assert("http://www.w3.org/2001/XMLSchema#dateTimeStamp"@.len() == 46);
    reveal_strlit("http://www.w3.org/2001/XMLSchema#time");
    assert("http://www.w3.org/2001/XMLSchema#time"@.len() == 37);
    reveal_strlit("http://www.w3.org/2001/XMLSchema#date");
    assert("http://www.w3.org/2001/XMLSchema#date"@.len() == 37);
    reveal(typed_native_encoding);
}

proof fn lemma_reads_g_year(value: Seq<char>)
    ensures
        typed_literal_of(value, xsd_g_year()).wf(),
        native_encoding(typed_literal_of(value, xsd_g_year())) == encoded_date_time(DateTimeKind::GYear, value),
{
    reveal_strlit("http://www.w3.org/2001/XMLSchema#gYear");
    assert(xsd_g_year().len() == 38);
    reveal_strlit("http://www.w3.org/1999/02/22-rdf-syntax-ns#langString");
    assert("http://www.w3.org/1999/02/22-rdf-syntax-ns#langString"@.len() == 53);
    reveal_strlit("http://www.w3.org/2001/XMLSchema#string");
    assert("http://www.w3.org/2001/XMLSchema#string"@.len() == 39);
    reveal_strlit("http://www.w3.org/2001/XMLSchema#boolean");
    assert("http://www.w3.org/2001/XMLSchema#boolean"@.len() == 40);
    reveal_strlit("http://www.w3.org/2001/XMLSchema#integer");
    assert("http://www.w3.org/2001/XMLSchema#integer"@.len() == 40);
    reveal_strlit("http://www.w3.org/2001/XMLSchema#byte");
    assert("http://www.w3.org/2001/XMLSchema#byte"@.len() == 37);
    reveal_strlit("http://www.w3.org/2001/XMLSchema#short");
    assert("http://www.w3.org/2001/XMLSchema#short"@[33] == 's');
    assert(xsd_g_year()[33] == 'g');
    reveal_strlit("http://www.w3.org/2001/XMLSchema#int");
    assert("http://www.w3.org/2001/XMLSchema#int"@.len() == 36);
    reveal_strlit("http://www.w3.org/2001/XMLSchema#long");
    assert("http://www.w3.org/2001/XMLSchema#long"@.len() == 37);
    reveal_strlit("http://www.w3.org/2001/XMLSchema#unsignedByte");
    assert("http://www.w3.org/2001/XMLSchema#unsignedByte"@.len() == 45);
    reveal_strlit("http://www.w3.org/2001/XMLSchema#unsignedShort");
    assert("http://www.w3.org/2001/XMLSchema#unsignedShort"@.len() == 46);
    reveal_strlit("http://www.w3.org/2001/XMLSchema#unsignedInt");
    assert("http://www.w3.org/2001/XMLSchema#unsignedInt"@.len() == 44);
    reveal_strlit("http://www.w3.org/2001/XMLSchema#unsignedLong");
    assert("http://www.w3.org/2001/XMLSchema#unsignedLong"@.len() == 45);
    reveal_strlit("http://www.w3.org/2001/XMLSchema#positiveInteger");
    assert("http://www.w3.org/2001/XMLSchema#positiveInteger"@.len() == 48);
    reveal_strlit("http://www.w3.org/2001/XMLSchema#negativeInteger");
    assert("http://www.w3.org/2001/XMLSchema#negativeInteger"@.len() == 48);
    reveal_strlit("http://www.w3.org/2001/XMLSchema#nonPositiveInteger");
    assert("http://www.w3.org/2001/XMLSchema#nonPositiveInteger"@.len() == 51);
    reveal_strlit("http://www.w3.org/2001/XMLSchema#nonNegativeInteger");
    assert("http://www.w3.org/2001/XMLSchema#nonNegativeInteger"@.len() == 51);
    reveal_strlit("http://www.w3.org/2001/XMLSchema#decimal");
    assert("http://www.w3.org/2001/XMLSchema#decimal"@.len() == 40);
    reveal_strlit("http://www.w3.org/2001/XMLSchema#dateTime");
    assert("http://www.w3.org/2001/XMLSchema#dateTime"@.len() == 41);
    reveal_strlit("http://www.w3.org/2001/XMLSchema#dateTimeStamp");
    assert("http://www.w3.org/2001/XMLSchema#dateTimeStamp"@.len() == 46);
    reveal_strlit("http://www.w3.org/2001/XMLSchema#time");
    assert("http://www.w3.org/2001/XMLSchema#time"@.len() == 37);
    reveal_strlit("http://www.w3.org/2001/XMLSchema#date");
    assert("http://www.w3.org/2001/XMLSchema#date"@.len() == 37);
    reveal_strlit("http://www.w3.org/2001/XMLSchema#gYearMonth");
    assert("http://www.w3.org/2001/XMLSchema#gYearMonth"@.len() == 43);
    reveal(typed_native_encoding);
}

proof fn lemma_reads_g_month_day(value: Seq<char>)
    ensures
        typed_literal_of(value, xsd_g_month_day()).wf(),
        native_encoding(typed_literal_of(value, xsd_g_month_day())) == encoded_date_time(DateTimeKind::GMonthDay, value),
{
    reveal_strlit("http://www.w3.org/2001/XMLSchema#gMonthDay");
    assert(xsd_g_month_day().len() == 42);
    reveal_strlit("http://www.w3.org/1999/02/22-rdf-syntax-ns#langString");
    assert("http://www.w3.org/1999/02/22-rdf-syntax-ns#langString"@.len() == 53);
    reveal_strlit("http://www.w3.org/2001/XMLSchema#string");
    assert("http://www.w3.org/2001/XMLSchema#string"@.len() == 39);
    reveal_strlit("http://www.w3.org/2001/XMLSchema#boolean");
    assert("http://www.w3.org/2001/XMLSchema#boolean"@.len() == 40);
    reveal_strlit("http://www.w3.org/2001/XMLSchema#integer");
    assert("http://www.w3.org/2001/XMLSchema#integer"@.len() == 40);
    reveal_strlit("http://www.w3.org/2001/XMLSchema#byte");
    assert("http://www.w3.org/2001/XMLSchema#byte"@.len() == 37);
    reveal_strlit("http://www.w3.org/2001/XMLSchema#short");
    assert("http://www.w3.org/2001/XMLSchema#short"@.len() == 38);
    reveal_strlit("http://www.w3.org/2001/XMLSchema#int");
    assert("http://www.w3.org/2001/XMLSchema#int"@.len() == 36);
    reveal_strlit("http://www.w3.org/2001/XMLSchema#long");
    assert("http://www.w3.org/2001/XMLSchema#long"@.len() == 37);
    reveal_strlit("http://www.w3.org/2001/XMLSchema#unsignedByte");
    assert("http://www.w3.org/2001/XMLSchema#unsignedByte"@.len() == 45);
    reveal_strlit("http://www.w3.org/2001/XMLSchema#unsignedShort");
    assert("http://www.w3.org/2001/XMLSchema#unsignedShort"@.len() == 46);
    reveal_strlit("http://www.w3.org/2001/XMLSchema#unsignedInt");
    assert("http://www.w3.org/2001/XMLSchema#unsignedInt"@.len() == 44);
    reveal_strlit("http://www.w3.org/2001/XMLSchema#unsignedLong");
    assert("http://www.w3.org/2001/XMLSchema#unsignedLong"@.len() == 45);
    reveal_strlit("http://www.w3.org/2001/XMLSchema#positiveInteger");
    assert("http://www.w3.org/2001/XMLSchema#positiveInteger"@.len() == 48);
    reveal_strlit("http://www.w3.org/2001/XMLSchema#negativeInteger");
    assert("http://www.w3.org/2001/XMLSchema#negativeInteger"@.len() == 48);
    reveal_strlit("http://www.w3.org/2001/XMLSchema#nonPositiveInteger");
    assert("http://www.w3.org/2001/XMLSchema#nonPositiveInteger"@.len() == 51);
    reveal_strlit("http://www.w3.org/2001/XMLSchema#nonNegativeInteger");
    assert("http://www.w3.org/2001/XMLSchema#nonNegativeInteger"@.len() == 51);
    reveal_strlit("http://www.w3.org/2001/XMLSchema#decimal");
    assert("http://www.w3.org/2001/XMLSchema#decimal"@.len() == 40);
    reveal_strlit("http://www.w3.org/2001/XMLSchema#dateTime");
    assert("http://www.w3.org/2001/XMLSchema#dateTime"@.len() == 41);
    reveal_strlit("http://www.w3.org/2001/XMLSchema#dateTimeStamp");
    assert("http://www.w3.org/2001/XMLSchema#dateTimeStamp"@.len() == 46);
    reveal_strlit("http://www.w3.org/2001/XMLSchema#time");
    assert("http://www.w3.org/2001/XMLSchema#time"@.len() == 37);
    reveal_strlit("http://www.w3.org/2001/XMLSchema#date");
    assert("http://www.w3.org/2001/XMLSchema#date"@.len() == 37);
    reveal_strlit("http://www.w3.org/2001/XMLSchema#gYearMonth");
    assert("http://www.w3.org/2001/XMLSchema#gYearMonth"@.len() == 43);
    reveal_strlit("http://www.w3.org/2001/XMLSchema#gYear");
    assert("http://www.w3.org/2001/XMLSchema#gYear"@.len() == 38);
    reveal(typed_native_encoding);
}

proof fn lemma_reads_g_day(value: Seq<char>)
    ensures
        typed_literal_of(value, xsd_g_day()).wf(),
        native_encoding(typed_literal_of(value, xsd_g_day())) == encoded_date_time(DateTimeKind::GDay, value),
{
    reveal_strlit("http://www.w3.org/2001/XMLSchema#gDay");
    assert(xsd_g_day().len() == 37);
    reveal_strlit("http://www.w3.org/1999/02/22-rdf-syntax-ns#langString");
    assert("http://www.w3.org/1999/02/22-rdf-syntax-ns#langString"@.len() == 53);
    reveal_strlit("http://www.w3.org/2001/XMLSchema#string");
    assert("http://www.w3.org/2001/XMLSchema#string"@.len() == 39);
    reveal_strlit("http://www.w3.org/2001/XMLSchema#boolean");
    assert("http://www.w3.org/2001/XMLSchema#boolean"@.len() == 40);
    reveal_strlit("http://www.w3.org/2001/XMLSchema#integer");
    assert("http://www.w3.org/2001/XMLSchema#integer"@.len() == 40);
    reveal_strlit("http://www.w3.org/2001/XMLSchema#byte");
    assert("http://www.w3.org/2001/XMLSchema#byte"@[33] == 'b');
    assert(xsd_g_day()[33] == 'g');
    reveal_strlit("http://www.w3.org/2001/XMLSchema#short");
    assert("http://www.w3.org/2001/XMLSchema#short"@.len() == 38);
    reveal_strlit("http://www.w3.org/2001/XMLSchema#int");
    assert("http://www.w3.org/2001/XMLSchema#int"@.len() == 36);
    reveal_strlit("http://www.w3.org/2001/XMLSchema#long");
    assert("http://www.w3.org/2001/XMLSchema#long"@[33] == 'l');
    reveal_strlit("http://www.w3.org/2001/XMLSchema#unsignedByte");
    assert("http://www.w3.org/2001/XMLSchema#unsignedByte"@.len() == 45);
    reveal_strlit("http://www.w3.org/2001/XMLSchema#unsignedShort");
    assert("http://www.w3.org/2001/XMLSchema#unsignedShort"@.len() == 46);
    reveal_strlit("http://www.w3.org/2001/XMLSchema#unsignedInt");
    assert("http://www.w3.org/2001/XMLSchema#unsignedInt"@.len() == 44);
    reveal_strlit("http://www.w3.org/2001/XMLSchema#unsignedLong");
    assert("http://www.w3.org/2001/XMLSchema#unsignedLong"@.len() == 45);
    reveal_strlit("http://www.w3.org/2001/XMLSchema#positiveInteger");
    assert("http://www.w3.org/2001/XMLSchema#positiveInteger"@.len() == 48);
    reveal_strlit("http://www.w3.org/2001/XMLSchema#negativeInteger");
    assert("http://www.w3.org/2001/XMLSchema#negativeInteger"@.len() == 48);
    reveal_strlit("http://www.w3.org/2001/XMLSchema#nonPositiveInteger");
    assert("http://www.w3.org/2001/XMLSchema#nonPositiveInteger"@.len() == 51);
    reveal_strlit("http://www.w3.org/2001/XMLSchema#nonNegativeInteger");
    assert("http://www.w3.org/2001/XMLSchema#nonNegativeInteger"@.len() == 51);
    reveal_strlit("http://www.w3.org/2001/XMLSchema#decimal");
    assert("http://www.w3.org/2001/XMLSchema#decimal"@.len() == 40);
    reveal_strlit("http://www.w3.org/2001/XMLSchema#dateTime");
    assert("http://www.w3.org/2001/XMLSchema#dateTime"@.len() == 41);
    reveal_strlit("http://www.w3.org/2001/XMLSchema#dateTimeStamp");
    assert("http://www.w3.org/2001/XMLSchema#dateTimeStamp"@.len() == 46);
    reveal_strlit("http://www.w3.org/2001/XMLSchema#time");
    assert("http://www.w3.org/2001/XMLSchema#time"@[33] == 't');
    reveal_strlit("http://www.w3.org/2001/XMLSchema#date");
    assert("http://www.w3.org/2001/XMLSchema#date"@[33] == 'd');
    reveal_strlit("http://www.w3.org/2001/XMLSchema#gYearMonth");
    assert("http://www.w3.org/2001/XMLSchema#gYearMonth"@.len() == 43);
    reveal_strlit("http://www.w3.org/2001/XMLSchema#gYear");
    assert("http://www.w3.org/2001/XMLSchema#gYear"@.len() == 38);
    reveal_strlit("http://www.w3.org/2001/XMLSchema#gMonthDay");
    assert("http://www.w3.org/2001/XMLSchema#gMonthDay"@.len() == 42);
    reveal(typed_native_encoding);
}

proof fn lemma_reads_g_month(value: Seq<char>)
    ensures
        typed_literal_of(value, xsd_g_month()).wf(),
        native_encoding(typed_literal_of(value, xsd_g_month())) == encoded_date_time(DateTimeKind::GMonth, value),
{
    reveal_strlit("http://www.w3.org/2001/XMLSchema#gMonth");
    assert(xsd_g_month().len() == 39);
    reveal_strlit("http://www.w3.org/1999/02/22-rdf-syntax-ns#langString");
    assert("http://www.w3.org/1999/02/22-rdf-syntax-ns#langString"@.len() == 53);
    reveal_strlit("http://www.w3.org/2001/XMLSchema#string");
    assert("http://www.w3.org/2001/XMLSchema#string"@[33] == 's');
    assert(xsd_g_month()[33] == 'g');
    reveal_strlit("http://www.w3.org/2001/XMLSchema#boolean");
    assert("http://www.w3.org/2001/XMLSchema#boolean"@.len() == 40);
    reveal_strlit("http://www.w3.org/2001/XMLSchema#integer");
    assert("http://www.w3.org/2001/XMLSchema#integer"@.len() == 40);
    reveal_strlit("http://www.w3.org/2001/XMLSchema#byte");
    assert("http://www.w3.org/2001/XMLSchema#byte"@.len() == 37);
    reveal_strlit("http://www.w3.org/2001/XMLSchema#short");
    assert("http://www.w3.org/2001/XMLSchema#short"@.len() == 38);
    reveal_strlit("http://www.w3.org/2001/XMLSchema#int");
    assert("http://www.w3.org/2001/XMLSchema#int"@.len() == 36);
    reveal_strlit("http://www.w3.org/2001/XMLSchema#long");
    assert("http://www.w3.org/2001/XMLSchema#long"@.len() == 37);
    reveal_strlit("http://www.w3.org/2001/XMLSchema#unsignedByte");
    assert("http://www.w3.org/2001/XMLSchema#unsignedByte"@.len() == 45);
    reveal_strlit("http://www.w3.org/2001/XMLSchema#unsignedShort");
    assert("http://www.w3.org/2001/XMLSchema#unsignedShort"@.len() == 46);
    reveal_strlit("http://www.w3.org/2001/XMLSchema#unsignedInt");
    assert("http://www.w3.org/2001/XMLSchema#unsignedInt"@.len() == 44);
    reveal_strlit("http://www.w3.org/2001/XMLSchema#unsignedLong");
    assert("http://www.w3.org/2001/XMLSchema#unsignedLong"@.len() == 45);
    reveal_strlit("http://www.w3.org/2001/XMLSchema#positiveInteger");
    assert("http://www.w3.org/2001/XMLSchema#positiveInteger"@.len() == 48);
    reveal_strlit("http://www.w3.org/2001/XMLSchema#negativeInteger");
    assert("http://www.w3.org/2001/XMLSchema#negativeInteger"@.len() == 48);
    reveal_strlit("http://www.w3.org/2001/XMLSchema#nonPositiveInteger");
    assert("http://www.w3.org/2001/XMLSchema#nonPositiveInteger"@.len() == 51);
    reveal_strlit("http://www.w3.org/2001/XMLSchema#nonNegativeInteger");
    assert("http://www.w3.org/2001/XMLSchema#nonNegativeInteger"@.len() == 51);
    reveal_strlit("http://www.w3.org/2001/XMLSchema#decimal");
    assert("http://www.w3.org/2001/XMLSchema#decimal"@.len() == 40);
    reveal_strlit("http://www.w3.org/2001/XMLSchema#dateTime");
    assert("http://www.w3.org/2001/XMLSchema#dateTime"@.len() == 41);
    reveal_strlit("http://www.w3.org/2001/XMLSchema#dateTimeStamp");
    assert("http://www.w3.org/2001/XMLSchema#dateTimeStamp"@.len() == 46);
    reveal_strlit("http://www.w3.org/2001/XMLSchema#time");
    assert("http://www.w3.org/2001/XMLSchema#time"@.len() == 37);
    reveal_strlit("http://www.w3.org/2001/XMLSchema#date");
    assert("http://www.w3.org/2001/XMLSchema#date"@.len() == 37);
    reveal_strlit("http://www.w3.org/2001/XMLSchema#gYearMonth");
    assert("http://www.w3.org/2001/XMLSchema#gYearMonth"@.len() == 43);
    reveal_strlit("http://www.w3.org/2001/XMLSchema#gYear");
    assert("http://www.w3.org/2001/XMLSchema#gYear"@.len() == 38);
    reveal_strlit("http://www.w3.org/2001/XMLSchema#gMonthDay");
    assert("http://www.w3.org/2001/XMLSchema#gMonthDay"@.len() == 42);
    reveal_strlit("http://www.w3.org/2001/XMLSchema#gDay");
    assert("http://www.w3.org/2001/XMLSchema#gDay"@.len() == 37);
    reveal(typed_native_encoding);
}

proof fn lemma_reads_duration(value: Seq<char>)
    ensures
        typed_literal_of(value, xsd_duration()).wf(),
        native_encoding(typed_literal_of(value, xsd_duration())) == encoded_duration(DurationKind::Duration, value),
{
    reveal_strlit("http://www.w3.org/2001/XMLSchema#duration");
    assert(xsd_duration().len() == 41);
    reveal_strlit("http://www.w3.org/1999/02/22-rdf-syntax-ns#langString");
    assert("http://www.w3.org/1999/02/22-rdf-syntax-ns#langString"@.len() == 53);
    reveal_strlit("http://www.w3.org/2001/XMLSchema#string");
    assert("http://www.w3.org/2001/XMLSchema#string"@.len() == 39);
    reveal_strlit("http://www.w3.org/2001/XMLSchema#boolean");
    assert("http://www.w3.org/2001/XMLSchema#boolean"@.len() == 40);
    reveal_strlit("http://www.w3.org/2001/XMLSchema#integer");
    assert("http://www.w3.org/2001/XMLSchema#integer"@.len() == 40);
    reveal_strlit("http://www.w3.org/2001/XMLSchema#byte");
    assert("http://www.w3.org/2001/XMLSchema#byte"@.len() == 37);
    reveal_strlit("http://www.w3.org/2001/XMLSchema#short");
    assert("http://www.w3.org/2001/XMLSchema#short"@.len() == 38);
    reveal_strlit("http://www.w3.org/2001/XMLSchema#int");
    assert("http://www.w3.org/2001/XMLSchema#int"@.len() == 36);
    reveal_strlit("http://www.w3.org/2001/XMLSchema#long");
    assert("http://www.w3.org/2001/XMLSchema#long"@.len() == 37);
    reveal_strlit("http://www.w3.org/2001/XMLSchema#unsignedByte");
    assert("http://www.w3.org/2001/XMLSchema#unsignedByte"@.len() == 45);
    reveal_strlit("http://www.w3.org/2001/XMLSchema#unsignedShort");
    assert("http://www.w3.org/2001/XMLSchema#unsignedShort"@.len() == 46);
    reveal_strlit("http://www.w3.org/2001/XMLSchema#unsignedInt");
    assert("http://www.w3.org/2001/XMLSchema#unsignedInt"@.len() == 44);
    reveal_strlit("http://www.w3.org/2001/XMLSchema#unsignedLong");
    assert("http://www.w3.org/2001/XMLSchema#unsignedLong"@.len() == 45);
    reveal_strlit("http://www.w3.org/2001/XMLSchema#positiveInteger");
    assert("http://www.w3.org/2001/XMLSchema#positiveInteger"@.len() == 48);
    reveal_strlit("http://www.w3.org/2001/XMLSchema#negativeInteger");
    assert("http://www.w3.org/2001/XMLSchema#negativeInteger"@.len() == 48);
    reveal_strlit("http://www.w3.org/2001/XMLSchema#nonPositiveInteger");
    assert("http://www.w3.org/2001/XMLSchema#nonPositiveInteger"@.len() == 51);
    reveal_strlit("http://www.w3.org/2001/XMLSchema#nonNegativeInteger");
    assert("http://www.w3.org/2001/XMLSchema#nonNegativeInteger"@.len() == 51);
    reveal_strlit("http://www.w3.org/2001/XMLSchema#decimal");
    assert("http://www.w3.org/2001/XMLSchema#decimal"@.len() == 40);
    reveal_strlit("http://www.w3.org/2001/XMLSchema#dateTime");
    assert("http://www.w3.org/2001/XMLSchema#dateTime"@[34] == 'a');
    assert(xsd_duration()[34] == 'u');
    reveal_strlit("http://www.w3.org/2001/XMLSchema#dateTimeStamp");
    assert("http://www.w3.org/2001/XMLSchema#dateTimeStamp"@.len() == 46);
    reveal_strlit("http://www.w3.org/2001/XMLSchema#time");
    assert("http://www.w3.org/2001/XMLSchema#time"@.len() == 37);
    reveal_strlit("http://www.w3.org/2001/XMLSchema#date");
    assert("http://www.w3.org/2001/XMLSchema#date"@.len() == 37);
    reveal_strlit("http://www.w3.org/2001/XMLSchema#gYearMonth");
    assert("http://www.w3.org/2001/XMLSchema#gYearMonth"@.len() == 43);
    reveal_strlit("http://www.w3.org/2001/XMLSchema#gYear");
    assert("http://www.w3.org/2001/XMLSchema#gYear"@.len() == 38);
    reveal_strlit("http://www.w3.org/2001/XMLSchema#gMonthDay");
    assert("http://www.w3.org/2001/XMLSchema#gMonthDay"@.len() == 42);
    reveal_strlit("http://www.w3.org/2001/XMLSchema#gDay");
    assert("http://www.w3.org/2001/XMLSchema#gDay"@.len() == 37);
    reveal_strlit("http://www.w3.org/2001/XMLSchema#gMonth");
    assert("http://www.w3.org/2001/XMLSchema#gMonth"@.len() == 39);
    reveal(typed_native_encoding);
}

proof fn lemma_reads_year_month_duration(value: Seq<char>)
    ensures
        typed_literal_of(value, xsd_year_month_duration()).wf(),
        native_encoding(typed_literal_of(value, xsd_year_month_duration())) == encoded_duration(DurationKind::YearMonthDuration, value),
{
    reveal_strlit("http://www.w3.org/2001/XMLSchema#yearMonthDuration");
    assert(xsd_year_month_duration().len() == 50);
    reveal_strlit("http://www.w3.org/1999/02/22-rdf-syntax-ns#langString");
    assert("http://www.w3.org/1999/02/22-rdf-syntax-ns#langString"@.len() == 53);
    reveal_strlit("http://www.w3.org/2001/XMLSchema#string");
    assert("http://www.w3.org/2001/XMLSchema#string"@.len() == 39);
    reveal_strlit("http://www.w3.org/2001/XMLSchema#boolean");
    assert("http://www.w3.org/2001/XMLSchema#boolean"@.len() == 40);
    reveal_strlit("http://www.w3.org/2001/XMLSchema#integer");
    assert("http://www.w3.org/2001/XMLSchema#integer"@.len() == 40);
    reveal_strlit("http://www.w3.org/2001/XMLSchema#byte");
    assert("http://www.w3.org/2001/XMLSchema#byte"@.len() == 37);
    reveal_strlit("http://www.w3.org/2001/XMLSchema#short");
    assert("http://www.w3.org/2001/XMLSchema#short"@.len() == 38);
    reveal_strlit("http://www.w3.org/2001/XMLSchema#int");
    assert("http://www.w3.org/2001/XMLSchema#int"@.len() == 36);
    reveal_strlit("http://www.w3.org/2001/XMLSchema#long");
    assert("http://www.w3.org/2001/XMLSchema#long"@.len() == 37);
    reveal_strlit("http://www.w3.org/2001/XMLSchema#unsignedByte");
    assert("http://www.w3.org/2001/XMLSchema#unsignedByte"@.len() == 45);
    reveal_strlit("http://www.w3.org/2001/XMLSchema#unsignedShort");
    assert("http://www.w3.org/2001/XMLSchema#unsignedShort"@.len() == 46);
    reveal_strlit("http://www.w3.org/2001/XMLSchema#unsignedInt");
    assert("http://www.w3.org/2001/XMLSchema#unsignedInt"@.len() == 44);
    reveal_strlit("http://www.w3.org/2001/XMLSchema#unsignedLong");
    assert("http://www.w3.org/2001/XMLSchema#unsignedLong"@.len() == 45);
    reveal_strlit("http://www.w3.org/2001/XMLSchema#positiveInteger");
    assert("http://www.w3.org/2001/XMLSchema#positiveInteger"@.len() == 48);
    reveal_strlit("http://www.w3.org/2001/XMLSchema#negativeInteger");
    assert("http://www.w3.org/2001/XMLSchema#negativeInteger"@.len() == 48);
    reveal_strlit("http://www.w3.org/2001/XMLSchema#nonPositiveInteger");
    assert("http://www.w3.org/2001/XMLSchema#nonPositiveInteger"@.len() == 51);
    reveal_strlit("http://www.w3.org/2001/XMLSchema#nonNegativeInteger");
    assert("http://www.w3.org/2001/XMLSchema#nonNegativeInteger"@.len() == 51);
    reveal_strlit("http://www.w3.org/2001/XMLSchema#decimal");
    assert("http://www.w3.org/2001/XMLSchema#decimal"@.len() == 40);
    reveal_strlit("http://www.w3.org/2001/XMLSchema#dateTime");
    assert("http://www.w3.org/2001/XMLSchema#dateTime"@.len() == 41);
    reveal_strlit("http://www.w3.org/2001/XMLSchema#dateTimeStamp");
    assert("http://www.w3.org/2001/XMLSchema#dateTimeStamp"@.len() == 46);
    reveal_strlit("http://www.w3.org/2001/XMLSchema#time");
    assert("http://www.w3.org/2001/XMLSchema#time"@.len() == 37);
    reveal_strlit("http://www.w3.org/2001/XMLSchema#date");
    assert("http://www.w3.org/2001/XMLSchema#date"@.len() == 37);
    reveal_strlit("http://www.w3.org/2001/XMLSchema#gYearMonth");
    assert("http://www.w3.org/2001/XMLSchema#gYearMonth"@.len() == 43);
    reveal_strlit("http://www.w3.org/2001/XMLSchema#gYear");
    assert("http://www.w3.org/2001/XMLSchema#gYear"@.len() == 38);
    reveal_strlit("http://www.w3.org/2001/XMLSchema#gMonthDay");
    assert("http://www.w3.org/2001/XMLSchema#gMonthDay"@.len() == 42);
    reveal_strlit("http://www.w3.org/2001/XMLSchema#gDay");
    assert("http://www.w3.org/2001/XMLSchema#gDay"@.len() == 37);
    reveal_strlit("http://www.w3.org/2001/XMLSchema#gMonth");
    assert("http://www.w3.org/2001/XMLSchema#gMonth"@.len() == 39);
    reveal_strlit("http://www.w3.org/2001/XMLSchema#duration");
    assert("http://www.w3.org/2001/XMLSchema#duration"@.len() == 41);
    reveal(typed_native_encoding);
}

proof fn lemma_reads_day_time_duration(value: Seq<char>)
    ensures
        typed_literal_of(value, xsd_day_time_duration()).wf(),
        native_encoding(typed_literal_of(value, xsd_day_time_duration())) == encoded_duration(DurationKind::DayTimeDuration, value),
{
    reveal_strlit("http://www.w3.org/2001/XMLSchema#dayTimeDuration");
    assert(xsd_day_time_duration().len() == 48);
    reveal_strlit("http://www.w3.org/1999/02/22-rdf-syntax-ns#langString");
    assert("http://www.w3.org/1999/02/22-rdf-syntax-ns#langString"@.len() == 53);
    reveal_strlit("http://www.w3.org/2001/XMLSchema#string");
    assert("http://www.w3.org/2001/XMLSchema#string"@.len() == 39);
    reveal_strlit("http://www.w3.org/2001/XMLSchema#boolean");
    assert("http://www.w3.org/2001/XMLSchema#boolean"@.len() == 40);
    reveal_strlit("http://www.w3.org/2001/XMLSchema#integer");
    assert("http://www.w3.org/2001/XMLSchema#integer"@.len() == 40);
    reveal_strlit("http://www.w3.org/2001/XMLSchema#byte");
    assert("http://www.w3.org/2001/XMLSchema#byte"@.len() == 37);
    reveal_strlit("http://www.w3.org/2001/XMLSchema#short");
    assert("http://www.w3.org/2001/XMLSchema#short"@.len() == 38);
    reveal_strlit("http://www.w3.org/2001/XMLSchema#int");
    assert("http://www.w3.org/2001/XMLSchema#int"@.len() == 36);
    reveal_strlit("http://www.w3.org/2001/XMLSchema#long");
    assert("http://www.w3.org/2001/XMLSchema#long"@.len() == 37);
    reveal_strlit("http://www.w3.org/2001/XMLSchema#unsignedByte");
    assert("http://www.w3.org/2001/XMLSchema#unsignedByte"@.len() == 45);
    reveal_strlit("http://www.w3.org/2001/XMLSchema#unsignedShort");
    assert("http://www.w3.org/2001/XMLSchema#unsignedShort"@.len() == 46);
    reveal_strlit("http://www.w3.org/2001/XMLSchema#unsignedInt");
    assert("http://www.w3.org/2001/XMLSchema#unsignedInt"@.len() == 44);
    reveal_strlit("http://www.w3.org/2001/XMLSchema#unsignedLong");
    assert("http://www.w3.org/2001/XMLSchema#unsignedLong"@.len() == 45);
    reveal_strlit("http://www.w3.org/2001/XMLSchema#positiveInteger");
    assert("http://www.w3.org/2001/XMLSchema#positiveInteger"@[33] == 'p');
    assert(xsd_day_time_duration()[33] == 'd');
    reveal_strlit("http://www.w3.org/2001/XMLSchema#negativeInteger");
    assert("http://www.w3.org/2001/XMLSchema#negativeInteger"@[33] == 'n');
    reveal_strlit("http://www.w3.org/2001/XMLSchema#nonPositiveInteger");
    assert("http://www.w3.org/2001/XMLSchema#nonPositiveInteger"@.len() == 51);
    reveal_strlit("http://www.w3.org/2001/XMLSchema#nonNegativeInteger");
    assert("http://www.w3.org/2001/XMLSchema#nonNegativeInteger"@.len() == 51);
    reveal_strlit("http://www.w3.org/2001/XMLSchema#decimal");
    assert("http://www.w3.org/2001/XMLSchema#decimal"@.len() == 40);
    reveal_strlit("http://www.w3.org/2001/XMLSchema#dateTime");
    assert("http://www.w3.org/2001/XMLSchema#dateTime"@.len() == 41);
    reveal_strlit("http://www.w3.org/2001/XMLSchema#dateTimeStamp");
    assert("http://www.w3.org/2001/XMLSchema#dateTimeStamp"@.len() == 46);
    reveal_strlit("http://www.w3.org/2001/XMLSchema#time");
    assert("http://www.w3.org/2001/XMLSchema#time"@.len() == 37);
    reveal_strlit("http://www.w3.org/2001/XMLSchema#date");
    assert("http://www.w3.org/2001/XMLSchema#date"@.len() == 37);
    reveal_strlit("http://www.w3.org/2001/XMLSchema#gYearMonth");
    assert("http://www.w3.org/2001/XMLSchema#gYearMonth"@.len() == 43);
    reveal_strlit("http://www.w3.org/2001/XMLSchema#gYear");
    assert("http://www.w3.org/2001/XMLSchema#gYear"@.len() == 38);
    reveal_strlit("http://www.w3.org/2001/XMLSchema#gMonthDay");
    assert("http://www.w3.org/2001/XMLSchema#gMonthDay"@.len() == 42);
    reveal_strlit("http://www.w3.org/2001/XMLSchema#gDay");
    assert("http://www.w3.org/2001/XMLSchema#gDay"@.len() == 37);
    reveal_strlit("http://www.w3.org/2001/XMLSchema#gMonth");
    assert("http://www.w3.org/2001/XMLSchema#gMonth"@.len() == 39);
    reveal_strlit("http://www.w3.org/2001/XMLSchema#duration");
    assert("http://www.w3.org/2001/XMLSchema#duration"@.len() == 41);
    reveal_strlit("http://www.w3.org/2001/XMLSchema#yearMonthDuration");
    assert("http://www.w3.org/2001/XMLSchema#yearMonthDuration"@.len() == 50);
    reveal(typed_native_encoding);
}

/// The datatype under which the store gives back the values of a type of
/// dates and times.
pub open spec fn date_time_datatype(kind: DateTimeKind) -> Seq<char> {
    match kind {
        DateTimeKind::DateTime => xsd_date_time(),
        DateTimeKind::Time => xsd_time(),
        DateTimeKind::Date => xsd_date(),
        DateTimeKind::GYearMonth => xsd_g_year_month(),
        DateTimeKind::GYear => xsd_g_year(),
        DateTimeKind::GMonthDay => xsd_g_month_day(),
        DateTimeKind::GDay => xsd_g_day(),
        DateTimeKind::GMonth => xsd_g_month(),
    }
}

proof fn lemma_reads_date_time_kind(kind: DateTimeKind, value: Seq<char>)
    ensures
        typed_literal_of(value, date_time_datatype(kind)).wf(),
        native_encoding(typed_literal_of(value, date_time_datatype(kind))) == encoded_date_time(
            kind,
            value,
        ),
{
    match kind {
        DateTimeKind::DateTime => lemma_reads_date_time(value),
        DateTimeKind::Time => lemma_reads_time(value),
        DateTimeKind::Date => lemma_reads_date(value),
        DateTimeKind::GYearMonth => lemma_reads_g_year_month(value),
        DateTimeKind::GYear => lemma_reads_g_year(value),
        DateTimeKind::GMonthDay => lemma_reads_g_month_day(value),
        DateTimeKind::GDay => lemma_reads_g_day(value),
        DateTimeKind::GMonth => lemma_reads_g_month(value),
    }
}

proof fn lemma_native_date_time(kind: DateTimeKind, fields: DateTimeFields)
    ensures
        native_literal(date_time_term(kind, fields)) == Some(
            typed_literal_of(date_time_text(kind, fields), date_time_datatype(kind)),
        ),
{
}

/// What the store gives back for a date or a time that it holds natively is
/// written as the store writes it: encoding it gives the held value back.
pub proof fn lemma_encode_decode_date_time(kind: DateTimeKind, fields: DateTimeFields)
    requires
        fields_are_valid(kind, fields),
    ensures
        native_literal(date_time_term(kind, fields)) matches Some(literal) && encoded_literal(
            literal,
        ) == date_time_term(kind, fields) && literal.wf() && literal_is_canonical(literal),
{
    let text = date_time_text(kind, fields);
    let literal = typed_literal_of(text, date_time_datatype(kind));
    lemma_native_date_time(kind, fields);
    lemma_reads_date_time_kind(kind, text);
    lemma_date_time_round_trip(kind, fields);
    lemma_date_time_bytes_ascii(kind, fields);
    lemma_ascii_text(date_time_bytes(kind, fields));
    assert(encoded_date_time(kind, text) == Some(date_time_term(kind, fields)));
    assert(native_encoding(literal) == Some(date_time_term(kind, fields)));
}

/// What the store gives back for a duration that it holds natively is
/// written as the store writes it: encoding it gives the held value back.
pub proof fn lemma_encode_decode_duration(kind: DurationKind, duration: Duration)
    requires
        duration_is_valid(kind, duration),
    ensures
        native_literal(duration_term(kind, duration)) matches Some(literal) && encoded_literal(
            literal,
        ) == duration_term(kind, duration) && literal.wf() && literal_is_canonical(literal),
{
    let text = duration_text(kind, duration);
    lemma_duration_round_trip(kind, duration);
    lemma_duration_bytes_ascii(kind, duration);
    lemma_ascii_text(duration_bytes(kind, duration));
    match kind {
        DurationKind::Duration => lemma_reads_duration(text),
        DurationKind::YearMonthDuration => lemma_reads_year_month_duration(text),
        DurationKind::DayTimeDuration => lemma_reads_day_time_duration(text),
    }
}

/// Whether a value that is held natively is one that a text denotes: the
/// fields of a date or of a time are in order, and a duration is one of its
/// type.
pub open spec fn native_is_valid(encoded: EncodedTerm) -> bool {
    match encoded {
        EncodedTerm::DateTimeLiteral(fields) => fields_are_valid(DateTimeKind::DateTime, fields),
        EncodedTerm::TimeLiteral(fields) => fields_are_valid(DateTimeKind::Time, fields),
        EncodedTerm::DateLiteral(fields) => fields_are_valid(DateTimeKind::Date, fields),
        EncodedTerm::GYearMonthLiteral(fields) => fields_are_valid(
            DateTimeKind::GYearMonth,
            fields,
        ),
        EncodedTerm::GYearLiteral(fields) => fields_are_valid(DateTimeKind::GYear, fields),
        EncodedTerm::GMonthDayLiteral(fields) => fields_are_valid(DateTimeKind::GMonthDay, fields),
        EncodedTerm::GDayLiteral(fields) => fields_are_valid(DateTimeKind::GDay, fields),
        EncodedTerm::GMonthLiteral(fields) => fields_are_valid(DateTimeKind::GMonth, fields),
        EncodedTerm::DurationLiteral(d) => duration_is_valid(DurationKind::Duration, d),
        EncodedTerm::YearMonthDurationLiteral(d) => duration_is_valid(
            DurationKind::YearMonthDuration,
            d,
        ),
        EncodedTerm::DayTimeDurationLiteral(d) => duration_is_valid(
            DurationKind::DayTimeDuration,
            d,
        ),
        _ => true,
    }
}

proof fn lemma_typed_native_is_valid(value: Seq<char>, datatype: Seq<char>)
    ensures
        typed_native_encoding(value, datatype) matches Some(encoded) ==> native_is_valid(encoded),
{
    reveal(typed_native_encoding);
    let bytes = encode_utf8(value);
    assert forall|kind: DateTimeKind| #[trigger]
        encoded_date_time(kind, value) matches Some(encoded) ==> native_is_valid(encoded) by {
        lemma_read_date_time_is_valid(kind, bytes);
    }
    assert forall|kind: DurationKind| #[trigger]
        encoded_duration(kind, value) matches Some(encoded) ==> native_is_valid(encoded) by {
        lemma_read_duration_is_valid(kind, bytes);
    }
}

/// Every value that the store holds natively for a literal is one that a
/// text denotes.
pub proof fn lemma_encoded_is_valid(literal: LiteralView)
    ensures
        native_is_valid(encoded_literal(literal)),
{
    lemma_typed_native_is_valid(literal.value(), literal.datatype());
}

/// What the store gives back for a value that it holds natively is written
/// as the store writes it: encoding it gives the held value back. So the
/// store gives back, for every literal, a literal that it takes for the
/// same.
pub proof fn lemma_encode_decode_native(encoded: EncodedTerm)
    requires
        is_native(encoded),
        native_is_valid(encoded),
    ensures
        native_literal(encoded) matches Some(literal) && encoded_literal(literal) == encoded
            && literal.wf() && literal_is_canonical(literal),
{
    match encoded {
        EncodedTerm::DateTimeLiteral(fields) => lemma_encode_decode_date_time(
            DateTimeKind::DateTime,
            fields,
        ),
        EncodedTerm::TimeLiteral(fields) => lemma_encode_decode_date_time(
            DateTimeKind::Time,
            fields,
        ),
        EncodedTerm::DateLiteral(fields) => lemma_encode_decode_date_time(
            DateTimeKind::Date,
            fields,
        ),
        EncodedTerm::GYearMonthLiteral(fields) => lemma_encode_decode_date_time(
            DateTimeKind::GYearMonth,
            fields,
        ),
        EncodedTerm::GYearLiteral(fields) => lemma_encode_decode_date_time(
            DateTimeKind::GYear,
            fields,
        ),
        EncodedTerm::GMonthDayLiteral(fields) => lemma_encode_decode_date_time(
            DateTimeKind::GMonthDay,
            fields,
        ),
        EncodedTerm::GDayLiteral(fields) => lemma_encode_decode_date_time(
            DateTimeKind::GDay,
            fields,
        ),
        EncodedTerm::GMonthLiteral(fields) => lemma_encode_decode_date_time(
            DateTimeKind::GMonth,
            fields,
        ),
        EncodedTerm::DurationLiteral(d) => lemma_encode_decode_duration(
            DurationKind::Duration,
            d,
        ),
        EncodedTerm::YearMonthDurationLiteral(d) => lemma_encode_decode_duration(
            DurationKind::YearMonthDuration,
            d,
        ),
        EncodedTerm::DayTimeDurationLiteral(d) => lemma_encode_decode_duration(
            DurationKind::DayTimeDuration,
            d,
        ),
        _ => lemma_encode_decode_number(encoded),
    }
}

} // verus!

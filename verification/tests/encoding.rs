use oxigraph::model::blank_node::BlankNode;
use oxigraph::model::literal::Literal;
use oxigraph::model::named_node::NamedNode;
use oxigraph::model::triple::{Subject, Term, Triple};
use oxigraph::storage::numeric_encoder::{
    decode_named_node, decode_subject, decode_term, insert_term_values, parse_boolean_str,
    parse_integer_str, remove_term_values, DecoderError, EncodedTerm, EncodedTriple, StrHash,
};
use oxigraph::storage::small_string::SmallString;
use oxigraph::storage::string_store::StringStore;

fn iri(text: &str) -> NamedNode {
    NamedNode::new_unchecked(text.to_owned())
}

fn typed(value: &str, datatype: &str) -> Literal {
    Literal::new_typed_literal(value.to_owned(), iri(datatype))
}

fn round_trip(term: &Term) -> Term {
    let encoded = EncodedTerm::from_term(term);
    let mut store = StringStore::new();
    insert_term_values(term, &encoded, &mut store);
    match decode_term(&store, &encoded) {
        Ok(decoded) => decoded,
        Err(error) => panic!("decoding failed: {:?}", error),
    }
}

#[test]
fn str_hash_is_a_function_of_the_text() {
    assert_eq!(StrHash::new("http://example.com"), StrHash::new("http://example.com"));
    assert_ne!(StrHash::new("http://example.com/a"), StrHash::new("http://example.com/b"));
    assert_ne!(StrHash::new(""), StrHash::new("a"));
}

#[test]
fn str_hash_is_sip_hash_2_4_with_zero_keys() {
    let mut hasher = siphasher::sip128::SipHasher24::new_with_keys(0, 0);
    std::hash::Hasher::write(&mut hasher, b"hello");
    let digest = siphasher::sip128::Hasher128::finish128(&hasher);
    let expected = (digest.h1 as u128) | ((digest.h2 as u128) << 64);
    assert_eq!(StrHash::new("hello").hash, expected);
}

#[test]
fn str_hash_reads_bytes_most_significant_first() {
    let mut bytes = [0u8; 16];
    bytes[15] = 1;
    assert_eq!(StrHash::from_be_bytes(bytes).hash, 1);
    bytes[14] = 2;
    assert_eq!(StrHash::from_be_bytes(bytes).hash, 0x0201);
    let mut high = [0u8; 16];
    high[0] = 0x80;
    assert_eq!(StrHash::from_be_bytes(high).hash, 1u128 << 127);
    assert_eq!(StrHash::from_be_bytes([0xff; 16]).hash, u128::MAX);
}

#[test]
fn str_hash_writes_bytes_most_significant_first() {
    let hash = StrHash { hash: 0x0102_0304_0506_0708_090a_0b0c_0d0e_0f10 };
    assert_eq!(
        hash.to_be_bytes(),
        [1, 2, 3, 4, 5, 6, 7, 8, 9, 10, 11, 12, 13, 14, 15, 16]
    );
    assert_eq!(StrHash { hash: 0 }.to_be_bytes(), [0u8; 16]);
    assert_eq!(StrHash::from_be_bytes(hash.to_be_bytes()), hash);
}

#[test]
fn small_string_holds_at_most_sixteen_bytes() {
    assert!(SmallString::try_from_str("").is_some());
    assert!(SmallString::try_from_str("0123456789abcdef").is_some());
    assert!(SmallString::try_from_str("0123456789abcdefg").is_none());
    // eight characters of two bytes each fit, one more byte does not
    assert!(SmallString::try_from_str("éééééééé").is_some());
    assert!(SmallString::try_from_str("éééééééé!").is_none());
}

#[test]
fn small_string_gives_its_text_back() {
    let small = SmallString::try_from_str("héllo").unwrap();
    assert_eq!(small.to_string(), "héllo");
    assert_eq!(small.len(), 6);
    assert!(!small.is_empty());
    assert!(SmallString::try_from_str("").unwrap().is_empty());
    assert_eq!(small, SmallString::try_from_str("héllo").unwrap());
    assert_ne!(small, SmallString::try_from_str("hello").unwrap());
}

#[test]
fn named_node_is_encoded_by_its_hash() {
    let encoded = EncodedTerm::from_named_node(&iri("http://example.com/a"));
    match encoded {
        EncodedTerm::NamedNode { iri_id } => {
            assert_eq!(iri_id, StrHash::new("http://example.com/a"))
        }
        other => panic!("unexpected encoding {:?}", other),
    }
}

#[test]
fn blank_nodes_are_encoded_by_number_or_label() {
    let numbered = EncodedTerm::from_blank_node(&BlankNode::new_from_unique_id(0x42));
    assert!(matches!(numbered, EncodedTerm::NumericalBlankNode { id: 0x42 }));
    // a label that writes a number in hexadecimal is the node of that number
    let hex = EncodedTerm::from_blank_node(&BlankNode::new_unchecked("a1".to_owned()));
    assert!(matches!(hex, EncodedTerm::NumericalBlankNode { id: 0xa1 }));
    // a leading zero, an upper-case digit or another letter make it a label
    for label in ["0a1", "A1", "xyz", ""] {
        let encoded = EncodedTerm::from_blank_node(&BlankNode::new_unchecked(label.to_owned()));
        assert!(matches!(encoded, EncodedTerm::SmallBlankNode(_)), "{}", label);
    }
    let long = EncodedTerm::from_blank_node(&BlankNode::new_unchecked(
        "a-label-that-is-longer-than-sixteen-bytes".to_owned(),
    ));
    assert!(matches!(long, EncodedTerm::BigBlankNode { .. }));
}

#[test]
fn hexadecimal_labels_of_more_than_128_bits_stay_labels() {
    let fits = "f".repeat(32);
    assert_eq!(BlankNode::new_unchecked(fits).id(), Some(u128::MAX));
    let too_long = format!("1{}", "0".repeat(32));
    assert_eq!(BlankNode::new_unchecked(too_long).id(), None);
}

#[test]
fn strings_are_small_or_big_by_length() {
    let short = EncodedTerm::from_literal(&Literal::new_simple_literal("0123456789abcdef".to_owned()));
    assert!(matches!(short, EncodedTerm::SmallStringLiteral(_)));
    let long = EncodedTerm::from_literal(&Literal::new_simple_literal("0123456789abcdefg".to_owned()));
    match long {
        EncodedTerm::BigStringLiteral { value_id } => {
            assert_eq!(value_id, StrHash::new("0123456789abcdefg"))
        }
        other => panic!("unexpected encoding {:?}", other),
    }
    // a literal of type xsd:string is the simple literal of its text
    let typed_string = EncodedTerm::from_literal(&typed(
        "abc",
        "http://www.w3.org/2001/XMLSchema#string",
    ));
    assert!(matches!(typed_string, EncodedTerm::SmallStringLiteral(_)));
}

#[test]
fn language_tagged_strings_take_one_of_four_forms() {
    let long_text = "a text that is longer than sixteen bytes".to_owned();
    let long_tag = "x-a-private-language-tag".to_owned();
    let make = |value: &str, language: &str| {
        EncodedTerm::from_literal(&Literal::new_language_tagged_literal_unchecked(
            value.to_owned(),
            language.to_owned(),
        ))
    };
    assert!(matches!(
        make("chat", "fr"),
        EncodedTerm::SmallSmallLangStringLiteral { .. }
    ));
    assert!(matches!(
        make("chat", &long_tag),
        EncodedTerm::SmallBigLangStringLiteral { .. }
    ));
    assert!(matches!(
        make(&long_text, "fr"),
        EncodedTerm::BigSmallLangStringLiteral { .. }
    ));
    assert!(matches!(
        make(&long_text, &long_tag),
        EncodedTerm::BigBigLangStringLiteral { .. }
    ));
}

#[test]
fn booleans_are_read_natively() {
    let xsd_boolean = "http://www.w3.org/2001/XMLSchema#boolean";
    for (text, value) in [("true", true), ("1", true), ("false", false), ("0", false)] {
        let encoded = EncodedTerm::from_literal(&typed(text, xsd_boolean));
        assert!(matches!(encoded, EncodedTerm::BooleanLiteral(b) if b == value), "{}", text);
    }
    for text in ["TRUE", "yes", "", " true"] {
        let encoded = EncodedTerm::from_literal(&typed(text, xsd_boolean));
        assert!(matches!(encoded, EncodedTerm::SmallTypedLiteral { .. }), "{}", text);
    }
    assert!(matches!(parse_boolean_str("1"), Some(EncodedTerm::BooleanLiteral(true))));
    assert!(parse_boolean_str("2").is_none());
}

#[test]
fn integers_are_read_natively() {
    let xsd_integer = "http://www.w3.org/2001/XMLSchema#integer";
    for (text, value) in [
        ("0", 0i64),
        ("42", 42),
        ("-7", -7),
        ("+5", 5),
        ("007", 7),
        ("9223372036854775807", i64::MAX),
        ("-9223372036854775808", i64::MIN),
    ] {
        let encoded = EncodedTerm::from_literal(&typed(text, xsd_integer));
        assert!(matches!(encoded, EncodedTerm::IntegerLiteral(i) if i == value), "{}", text);
    }
    // what does not fit, or is no integer, is kept as a text
    for text in ["9223372036854775808", "-9223372036854775809", "1.0", "", "+", "-", "1 ", "abc"] {
        let encoded = EncodedTerm::from_literal(&typed(text, xsd_integer));
        assert!(matches!(encoded, EncodedTerm::SmallTypedLiteral { .. } | EncodedTerm::BigTypedLiteral { .. }), "{}", text);
    }
    assert!(matches!(parse_integer_str("12"), Some(EncodedTerm::IntegerLiteral(12))));
    assert!(parse_integer_str("twelve").is_none());
}

#[test]
fn the_types_derived_from_integer_are_read_as_integers() {
    for name in [
        "byte",
        "short",
        "int",
        "long",
        "unsignedByte",
        "unsignedShort",
        "unsignedInt",
        "unsignedLong",
        "positiveInteger",
        "negativeInteger",
        "nonPositiveInteger",
        "nonNegativeInteger",
    ] {
        let datatype = format!("http://www.w3.org/2001/XMLSchema#{}", name);
        let encoded = EncodedTerm::from_literal(&typed("12", &datatype));
        assert!(matches!(encoded, EncodedTerm::IntegerLiteral(12)), "{}", name);
    }
}

#[test]
fn unknown_datatypes_keep_text_and_datatype() {
    let short = EncodedTerm::from_literal(&typed("abc", "http://example.com/dt"));
    match short {
        EncodedTerm::SmallTypedLiteral { value, datatype_id } => {
            assert_eq!(value.to_string(), "abc");
            assert_eq!(datatype_id, StrHash::new("http://example.com/dt"));
        }
        other => panic!("unexpected encoding {:?}", other),
    }
    let long = EncodedTerm::from_literal(&typed(
        "a text that is longer than sixteen bytes",
        "http://example.com/dt",
    ));
    assert!(matches!(long, EncodedTerm::BigTypedLiteral { .. }));
}

#[test]
fn floats_and_doubles_are_held_by_their_bits() {
    let float = EncodedTerm::from_literal(&Literal::from_float_bits(1.5f32.to_bits()));
    assert!(matches!(float, EncodedTerm::FloatLiteral(bits) if f32::from_bits(bits) == 1.5));
    let double = EncodedTerm::from_literal(&Literal::from_double_bits(3.14f64.to_bits()));
    assert!(matches!(double, EncodedTerm::DoubleLiteral(bits) if f64::from_bits(bits) == 3.14));
}

#[test]
fn round_trip_literal() {
    // a double comes back as the same double
    let double = Term::Literal(Literal::from_double_bits(3.14f64.to_bits()));
    match round_trip(&double) {
        Term::Literal(literal) => {
            assert_eq!(literal.double_bits().map(f64::from_bits), Some(3.14))
        }
        other => panic!("unexpected term {:?}", other),
    }
    // NaN is a double
    let nan = Term::Literal(Literal::from_double_bits(f64::NAN.to_bits()));
    assert!(matches!(
        EncodedTerm::from_term(&nan),
        EncodedTerm::DoubleLiteral(bits) if f64::from_bits(bits).is_nan()
    ));
    // a text that is no double is kept as a text with its datatype
    let malformed = Term::Literal(typed("nan", "http://www.w3.org/2001/XMLSchema#double"));
    assert!(matches!(
        EncodedTerm::from_term(&malformed),
        EncodedTerm::SmallTypedLiteral { .. }
    ));
    assert_eq!(round_trip(&malformed), malformed);
}

#[test]
fn decoding_gives_every_kind_of_term_back() {
    let long_text = "a text that is longer than sixteen bytes";
    let long_tag = "x-a-private-language-tag";
    let terms = vec![
        Term::NamedNode(iri("http://example.com/a")),
        Term::BlankNode(BlankNode::new_from_unique_id(7)),
        Term::BlankNode(BlankNode::new_unchecked("label".to_owned())),
        Term::BlankNode(BlankNode::new_unchecked(
            "a-label-that-is-longer-than-sixteen-bytes".to_owned(),
        )),
        Term::Literal(Literal::new_simple_literal("short".to_owned())),
        Term::Literal(Literal::new_simple_literal(long_text.to_owned())),
        Term::Literal(Literal::new_language_tagged_literal_unchecked("chat".to_owned(), "fr".to_owned())),
        Term::Literal(Literal::new_language_tagged_literal_unchecked("chat".to_owned(), long_tag.to_owned())),
        Term::Literal(Literal::new_language_tagged_literal_unchecked(long_text.to_owned(), "fr".to_owned())),
        Term::Literal(Literal::new_language_tagged_literal_unchecked(long_text.to_owned(), long_tag.to_owned())),
        Term::Literal(typed("abc", "http://example.com/dt")),
        Term::Literal(typed(long_text, "http://example.com/dt")),
        Term::Literal(typed("true", "http://www.w3.org/2001/XMLSchema#boolean")),
        Term::Literal(typed("false", "http://www.w3.org/2001/XMLSchema#boolean")),
        Term::Literal(typed("-42", "http://www.w3.org/2001/XMLSchema#integer")),
        Term::Literal(typed("0", "http://www.w3.org/2001/XMLSchema#integer")),
        Term::Literal(typed("-9223372036854775808", "http://www.w3.org/2001/XMLSchema#integer")),
        // malformed numbers are kept as they are written
        Term::Literal(typed("forty-two", "http://www.w3.org/2001/XMLSchema#integer")),
        Term::Literal(typed("maybe", "http://www.w3.org/2001/XMLSchema#boolean")),
        Term::Literal(typed("1e4x", "http://www.w3.org/2001/XMLSchema#float")),
        // a number too great for its type is the infinity of the type
        Term::Literal(Literal::from_float_bits("1e400000".parse::<f32>().unwrap().to_bits())),
        Term::Literal(Literal::from_float_bits(0.25f32.to_bits())),
        Term::Literal(Literal::from_double_bits((-0.0f64).to_bits())),
    ];
    for term in &terms {
        assert_eq!(&round_trip(term), term);
    }
    let quoted = Term::Triple(Box::new(Triple::new(
        Subject::NamedNode(iri("http://example.com/a")),
        iri("http://example.com/p"),
        Term::Literal(Literal::new_simple_literal(long_text.to_owned())),
    )));
    assert_eq!(round_trip(&quoted), quoted);
    let nested = Term::Triple(Box::new(Triple::new(
        Subject::Triple(Box::new(Triple::new(
            Subject::BlankNode(BlankNode::new_unchecked("inner".to_owned())),
            iri("http://example.com/p"),
            Term::Literal(typed("7", "http://www.w3.org/2001/XMLSchema#integer")),
        ))),
        iri("http://example.com/q"),
        quoted.clone(),
    )));
    assert_eq!(round_trip(&nested), nested);
}

#[test]
fn numbers_come_back_in_their_canonical_writing() {
    let xsd_integer = "http://www.w3.org/2001/XMLSchema#integer";
    assert_eq!(
        round_trip(&Term::Literal(typed("+007", xsd_integer))),
        Term::Literal(typed("7", xsd_integer))
    );
    assert_eq!(
        round_trip(&Term::Literal(typed("12", "http://www.w3.org/2001/XMLSchema#byte"))),
        Term::Literal(typed("12", xsd_integer))
    );
    let xsd_boolean = "http://www.w3.org/2001/XMLSchema#boolean";
    assert_eq!(
        round_trip(&Term::Literal(typed("1", xsd_boolean))),
        Term::Literal(typed("true", xsd_boolean))
    );
}

#[test]
fn a_missing_string_is_a_decoding_error() {
    let store = StringStore::new();
    let encoded = EncodedTerm::from_named_node(&iri("http://example.com/a"));
    match decode_term(&store, &encoded) {
        Err(DecoderError::Decoder { msg }) => {
            let id = StrHash::new("http://example.com/a");
            assert_eq!(
                msg,
                format!("Not able to find the string with id {:?} in the string store", id)
            );
            assert_eq!(
                msg,
                format!("Not able to find the string with id StrHash {{ hash: {} }} in the string store", id.hash)
            );
        }
        other => panic!("unexpected outcome {:?}", other),
    }
}

#[test]
fn terms_in_the_wrong_place_are_decoding_errors() {
    let store = StringStore::new();
    let message = |outcome: DecoderError<_>| match outcome {
        DecoderError::Decoder { msg } => msg,
        DecoderError::Store(error) => {
            let _: oxigraph::storage::string_store::Unfailing = error;
            panic!("the table cannot fail")
        }
    };
    assert_eq!(
        message(decode_term(&store, &EncodedTerm::DefaultGraph).unwrap_err()),
        "The default graph tag is not a valid term"
    );
    let literal = EncodedTerm::IntegerLiteral(1);
    assert_eq!(
        message(decode_subject(&store, &literal).unwrap_err()),
        "A literal has been found instead of a subject node"
    );
    assert_eq!(
        message(decode_named_node(&store, &literal).unwrap_err()),
        "A literal has been found instead of a named node"
    );
    let blank = EncodedTerm::NumericalBlankNode { id: 1 };
    assert_eq!(
        message(decode_named_node(&store, &blank).unwrap_err()),
        "A blank node has been found instead of a named node"
    );
    let triple = EncodedTerm::Triple(Box::new(EncodedTriple::new(
        EncodedTerm::NumericalBlankNode { id: 1 },
        EncodedTerm::IntegerLiteral(1),
        EncodedTerm::IntegerLiteral(2),
    )));
    // the predicate of the quoted triple is no IRI
    assert_eq!(
        message(decode_term(&store, &triple).unwrap_err()),
        "A literal has been found instead of a named node"
    );
}

#[test]
fn encoded_terms_compare_numbers_by_value() {
    let nan = EncodedTerm::DoubleLiteral(f64::NAN.to_bits());
    let other_nan = EncodedTerm::DoubleLiteral(f64::NAN.to_bits() | 1);
    assert_eq!(nan, other_nan);
    assert!(!nan.identical(&other_nan));
    assert_eq!(
        EncodedTerm::DoubleLiteral(0.0f64.to_bits()),
        EncodedTerm::DoubleLiteral((-0.0f64).to_bits())
    );
    assert_ne!(
        EncodedTerm::DoubleLiteral(1.0f64.to_bits()),
        EncodedTerm::DoubleLiteral(2.0f64.to_bits())
    );
    assert_ne!(EncodedTerm::DoubleLiteral(1.0f64.to_bits()), nan);
    assert_eq!(
        EncodedTerm::FloatLiteral(f32::NAN.to_bits()),
        EncodedTerm::FloatLiteral(f32::NAN.to_bits() | 1)
    );
    assert_ne!(
        EncodedTerm::FloatLiteral(1.0f32.to_bits()),
        EncodedTerm::DoubleLiteral(1.0f64.to_bits())
    );
    assert_eq!(EncodedTerm::IntegerLiteral(3), EncodedTerm::IntegerLiteral(3));
    assert_ne!(EncodedTerm::IntegerLiteral(3), EncodedTerm::BooleanLiteral(true));
}

#[test]
fn encoded_terms_know_their_kind() {
    let node = EncodedTerm::from_named_node(&iri("http://example.com/a"));
    assert!(node.is_named_node() && !node.is_literal() && !node.is_blank_node());
    let blank = EncodedTerm::NumericalBlankNode { id: 1 };
    assert!(blank.is_blank_node() && !blank.is_named_node());
    let literal = EncodedTerm::IntegerLiteral(1);
    assert!(literal.is_literal() && !literal.is_unknown_typed_literal());
    let unknown = EncodedTerm::from_literal(&typed("x", "http://example.com/dt"));
    assert!(unknown.is_literal() && unknown.is_unknown_typed_literal());
    assert!(EncodedTerm::DefaultGraph.is_default_graph());
    assert!(!EncodedTerm::DefaultGraph.is_literal());
    let triple = EncodedTerm::Triple(Box::new(EncodedTriple::new(
        EncodedTerm::NumericalBlankNode { id: 1 },
        EncodedTerm::NumericalBlankNode { id: 2 },
        EncodedTerm::NumericalBlankNode { id: 3 },
    )));
    assert!(triple.is_triple() && !triple.is_literal());
}

#[test]
fn the_string_store_counts_references() {
    let mut store = StringStore::new();
    let hash = StrHash::new("http://example.com/a");
    assert!(store.is_empty());
    assert_eq!(store.get(&hash), None);
    store.insert(&hash, "http://example.com/a");
    store.insert(&hash, "http://example.com/a");
    assert_eq!(store.count(&hash), 2);
    assert_eq!(store.get(&hash).as_deref(), Some("http://example.com/a"));
    store.remove(&hash);
    assert!(store.contains(&hash));
    assert_eq!(store.count(&hash), 1);
    store.remove(&hash);
    assert!(!store.contains(&hash));
    assert!(store.is_empty());
    // taking a reference away where there is none changes nothing
    store.remove(&hash);
    assert!(store.is_empty());
}

#[test]
fn removing_the_values_of_a_term_undoes_their_insertion() {
    let term = Term::Triple(Box::new(Triple::new(
        Subject::NamedNode(iri("http://example.com/a")),
        iri("http://example.com/a"),
        Term::Literal(typed(
            "a text that is longer than sixteen bytes",
            "http://example.com/dt",
        )),
    )));
    let encoded = EncodedTerm::from_term(&term);
    let mut store = StringStore::new();
    insert_term_values(&term, &encoded, &mut store);
    assert_eq!(store.count(&StrHash::new("http://example.com/a")), 2);
    assert_eq!(store.count(&StrHash::new("http://example.com/dt")), 1);
    assert_eq!(
        store.count(&StrHash::new("a text that is longer than sixteen bytes")),
        1
    );
    remove_term_values(&encoded, &mut store);
    assert!(store.is_empty());
}

#[test]
fn the_text_of_a_blank_node_is_its_label_or_its_number_in_hexadecimal() {
    assert_eq!(BlankNode::new_from_unique_id(255).to_text(), "ff");
    assert_eq!(BlankNode::new_from_unique_id(0x1a2b_3c4d).to_text(), "1a2b3c4d");
    assert_eq!(BlankNode::new_from_unique_id(16).to_text(), "10");
    assert_eq!(BlankNode::new_from_unique_id(9).to_text(), "9");
    assert_eq!(BlankNode::new_from_unique_id(0).to_text(), "0");
    assert_eq!(
        BlankNode::new_from_unique_id(u128::MAX).to_text(),
        "ffffffffffffffffffffffffffffffff"
    );
    assert_eq!(BlankNode::new_unchecked("label".to_owned()).to_text(), "label");
    assert_eq!(BlankNode::new_unchecked("0ff".to_owned()).to_text(), "0ff");
}

#[test]
fn reading_the_text_of_a_blank_node_gives_the_node_back() {
    for id in [1u128, 10, 255, 4096, 0xdead_beef, u128::MAX] {
        let node = BlankNode::new_from_unique_id(id);
        let read = BlankNode::new_unchecked(node.to_text());
        assert_eq!(read, node);
        assert_eq!(read.id(), Some(id));
    }
    for label in ["node", "x", "0", "00ff", "FF", "g1"] {
        let node = BlankNode::new_unchecked(label.to_owned());
        assert_eq!(node.label(), Some(label));
        assert_eq!(BlankNode::new_unchecked(node.to_text()), node);
    }
    let zero = BlankNode::new_from_unique_id(0);
    assert_eq!(BlankNode::new_unchecked(zero.to_text()).label(), Some("0"));
}

#[test]
fn a_text_that_denotes_a_float_is_not_taken_as_a_text() {
    let double = iri("http://www.w3.org/2001/XMLSchema#double");
    let float = iri("http://www.w3.org/2001/XMLSchema#float");
    assert!(Literal::try_new_typed_literal("3.14".to_owned(), double.clone()).is_none());
    assert!(Literal::try_new_typed_literal("NaN".to_owned(), double.clone()).is_none());
    assert!(Literal::try_new_typed_literal("-INF".to_owned(), float.clone()).is_none());
    assert!(Literal::try_new_typed_literal("1e400000".to_owned(), float).is_none());
    assert_eq!(
        Literal::try_new_typed_literal("nan".to_owned(), double.clone()),
        Some(typed("nan", "http://www.w3.org/2001/XMLSchema#double"))
    );
    assert_eq!(
        Literal::try_new_typed_literal("3.14".to_owned(), iri("http://www.w3.org/2001/XMLSchema#decimal")),
        Some(typed("3.14", "http://www.w3.org/2001/XMLSchema#decimal"))
    );
    let native = Literal::from_double_bits("3.14".parse::<f64>().unwrap().to_bits());
    assert!(EncodedTerm::from_literal(&native).identical(&EncodedTerm::DoubleLiteral(3.14f64.to_bits())));
}

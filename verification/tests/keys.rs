use oxigraph::model::blank_node::BlankNode;
use oxigraph::model::date_time::DateTimeFields;
use oxigraph::model::decimal::Decimal;
use oxigraph::model::duration::Duration;
use oxigraph::model::literal::Literal;
use oxigraph::model::named_node::NamedNode;
use oxigraph::model::triple::{Subject, Term, Triple};
use oxigraph::model::triple_key::triple_key;
use oxigraph::model::xsd::is_float_text;
use oxigraph::storage::backend::{key_begins_with, key_less, ColumnFamily};
use oxigraph::storage::be_bytes::{
    i128_to_unsigned, i16_to_unsigned, i64_to_unsigned, read_be, unsigned_to_i128,
    unsigned_to_i16, unsigned_to_i64, write_be,
};
use oxigraph::storage::binary_encoder::{read_term, write_term};
use oxigraph::storage::index::QuadIndex;
use oxigraph::storage::key_index::{read_quad, write_key, write_terms, KeyIndex};
use oxigraph::storage::numeric_encoder::{EncodedQuad, EncodedTerm, EncodedTriple, StrHash};
use oxigraph::storage::small_string::SmallString;

fn named(text: &str) -> EncodedTerm {
    EncodedTerm::from_named_node(&NamedNode::new_unchecked(text.to_owned()))
}

fn small(text: &str) -> SmallString {
    SmallString::try_from_str(text).expect("the text fits in a small string")
}

fn layout(term: &EncodedTerm) -> Vec<u8> {
    let mut out = Vec::new();
    write_term(&mut out, term);
    out
}

fn fields(year: i64, month: u8, day: u8, timezone_offset: Option<i16>) -> DateTimeFields {
    DateTimeFields { year, month, day, hour: 13, minute: 20, second: 30_500_000_000_000_000_000, timezone_offset }
}

fn every_kind_of_term() -> Vec<EncodedTerm> {
    let hash = StrHash::new("a text that is too long to be held inline");
    let other = StrHash::new("another text that is too long to be held inline");
    vec![
        EncodedTerm::DefaultGraph,
        named("http://example.com/s"),
        EncodedTerm::NumericalBlankNode { id: 0x0123_4567_89ab_cdef_0011_2233_4455_6677 },
        EncodedTerm::SmallBlankNode(small("label")),
        EncodedTerm::BigBlankNode { id_id: hash },
        EncodedTerm::SmallStringLiteral(small("")),
        EncodedTerm::SmallStringLiteral(small("sixteen bytes ok")),
        EncodedTerm::BigStringLiteral { value_id: hash },
        EncodedTerm::SmallSmallLangStringLiteral { value: small("chat"), language: small("fr") },
        EncodedTerm::SmallBigLangStringLiteral { value: small("chat"), language_id: other },
        EncodedTerm::BigSmallLangStringLiteral { value_id: hash, language: small("fr") },
        EncodedTerm::BigBigLangStringLiteral { value_id: hash, language_id: other },
        EncodedTerm::SmallTypedLiteral { value: small("x"), datatype_id: other },
        EncodedTerm::BigTypedLiteral { value_id: hash, datatype_id: other },
        EncodedTerm::BooleanLiteral(true),
        EncodedTerm::BooleanLiteral(false),
        EncodedTerm::FloatLiteral(3.5f32.to_bits()),
        EncodedTerm::DoubleLiteral(3.14f64.to_bits()),
        EncodedTerm::DoubleLiteral(f64::NAN.to_bits()),
        EncodedTerm::IntegerLiteral(-42),
        EncodedTerm::IntegerLiteral(i64::MIN),
        EncodedTerm::DecimalLiteral(Decimal { value: -1_500_000_000_000_000_000 }),
        EncodedTerm::DateTimeLiteral(fields(2020, 2, 29, Some(-90))),
        EncodedTerm::TimeLiteral(fields(0, 0, 0, None)),
        EncodedTerm::DateLiteral(fields(-44, 3, 15, Some(840))),
        EncodedTerm::GYearMonthLiteral(fields(1999, 12, 0, None)),
        EncodedTerm::GYearLiteral(fields(1999, 0, 0, None)),
        EncodedTerm::GMonthDayLiteral(fields(0, 12, 25, None)),
        EncodedTerm::GDayLiteral(fields(0, 0, 25, None)),
        EncodedTerm::GMonthLiteral(fields(0, 12, 0, None)),
        EncodedTerm::DurationLiteral(Duration { months: 14, seconds: -3_000_000_000_000_000_000 }),
        EncodedTerm::YearMonthDurationLiteral(Duration { months: -14, seconds: 0 }),
        EncodedTerm::DayTimeDurationLiteral(Duration { months: 0, seconds: 86_400_000_000_000_000_000_000 }),
        EncodedTerm::Triple(Box::new(EncodedTriple {
            subject: named("http://example.com/s"),
            predicate: named("http://example.com/p"),
            object: EncodedTerm::Triple(Box::new(EncodedTriple {
                subject: EncodedTerm::NumericalBlankNode { id: 7 },
                predicate: named("http://example.com/q"),
                object: EncodedTerm::SmallStringLiteral(small("o")),
            })),
        })),
    ]
}

#[test]
fn numbers_are_written_most_significant_byte_first() {
    let mut out = vec![0xffu8];
    write_be(&mut out, 0x0102_0304, 4);
    assert_eq!(out, vec![0xff, 1, 2, 3, 4]);
    write_be(&mut out, 5, 2);
    assert_eq!(out, vec![0xff, 1, 2, 3, 4, 0, 5]);
    write_be(&mut out, 9, 0);
    assert_eq!(out.len(), 7);
    let mut wide = Vec::new();
    write_be(&mut wide, u128::MAX - 1, 16);
    assert_eq!(wide.len(), 16);
    assert_eq!(wide[15], 0xfe);
    assert_eq!(read_be(&wide, 0, 16), u128::MAX - 1);
}

#[test]
fn numbers_are_read_from_a_place() {
    let bytes = [9u8, 1, 2, 3, 4, 9];
    assert_eq!(read_be(&bytes, 1, 4), 0x0102_0304);
    assert_eq!(read_be(&bytes, 0, 1), 9);
    assert_eq!(read_be(&bytes, 3, 0), 0);
    assert_eq!(read_be(&bytes, 4, 2), 0x0409);
}

#[test]
fn signed_numbers_are_held_in_two_s_complement() {
    assert_eq!(i64_to_unsigned(-1), u64::MAX);
    assert_eq!(i64_to_unsigned(i64::MIN), 0x8000_0000_0000_0000);
    assert_eq!(i64_to_unsigned(42), 42);
    assert_eq!(unsigned_to_i64(u64::MAX), -1);
    assert_eq!(unsigned_to_i64(0x8000_0000_0000_0000), i64::MIN);
    assert_eq!(i128_to_unsigned(-2), u128::MAX - 1);
    assert_eq!(unsigned_to_i128(u128::MAX - 1), -2);
    assert_eq!(unsigned_to_i128(i128_to_unsigned(i128::MIN)), i128::MIN);
    assert_eq!(i16_to_unsigned(-90), 0xffa6);
    assert_eq!(unsigned_to_i16(0xffa6), -90);
    assert_eq!(unsigned_to_i16(840), 840);
}

#[test]
fn a_small_string_is_laid_out_in_seventeen_bytes() {
    let mut out = vec![7u8];
    small("abc").write_to(&mut out);
    let mut expected = vec![7u8, 3, b'a', b'b', b'c'];
    expected.extend_from_slice(&[0u8; 13]);
    assert_eq!(out, expected);
    assert_eq!(SmallString::read_from(&out, 1).map(|s| s.to_string()), Some("abc".to_owned()));
    out.push(0);
    assert!(SmallString::read_from(&out, 2).is_none());
}

#[test]
fn a_layout_that_is_no_small_string_is_refused() {
    let mut too_long = vec![17u8];
    too_long.extend_from_slice(&[b'a'; 16]);
    assert!(SmallString::read_from(&too_long, 0).is_none());
    let mut dirty_tail = vec![1u8, b'a'];
    dirty_tail.extend_from_slice(&[b'b'; 15]);
    assert!(SmallString::read_from(&dirty_tail, 0).is_none());
    let mut not_utf8 = vec![1u8, 0xff];
    not_utf8.extend_from_slice(&[0u8; 15]);
    assert!(SmallString::read_from(&not_utf8, 0).is_none());
}

#[test]
fn terms_are_laid_out_behind_their_tag() {
    assert_eq!(layout(&EncodedTerm::DefaultGraph), vec![0u8]);
    assert_eq!(layout(&EncodedTerm::BooleanLiteral(true)), vec![28u8]);
    assert_eq!(layout(&EncodedTerm::BooleanLiteral(false)), vec![29u8]);
    assert_eq!(layout(&EncodedTerm::IntegerLiteral(258)), vec![32u8, 0, 0, 0, 0, 0, 0, 1, 2]);
    assert_eq!(layout(&EncodedTerm::IntegerLiteral(-1)), vec![32u8, 255, 255, 255, 255, 255, 255, 255, 255]);
    assert_eq!(layout(&EncodedTerm::FloatLiteral(0x4060_0000)), vec![30u8, 0x40, 0x60, 0, 0]);
    assert_eq!(
        layout(&EncodedTerm::DoubleLiteral(3.14f64.to_bits())),
        [vec![31u8], 3.14f64.to_be_bytes().to_vec()].concat()
    );
    let node = NamedNode::new_unchecked("http://example.com/s".to_owned());
    let hash = StrHash::new(node.as_str());
    assert_eq!(
        layout(&EncodedTerm::from_named_node(&node)),
        [vec![1u8], hash.to_be_bytes().to_vec()].concat()
    );
    assert_eq!(
        layout(&EncodedTerm::NumericalBlankNode { id: 1 }),
        [vec![8u8], vec![0u8; 15], vec![1u8]].concat()
    );
    let mut small_literal = vec![16u8, 2, b'h', b'i'];
    small_literal.extend_from_slice(&[0u8; 14]);
    assert_eq!(layout(&EncodedTerm::SmallStringLiteral(small("hi"))), small_literal);
}

#[test]
fn the_language_and_the_datatype_come_before_the_value() {
    let other = StrHash::new("http://example.com/datatype");
    let typed = layout(&EncodedTerm::SmallTypedLiteral { value: small("x"), datatype_id: other });
    assert_eq!(typed.len(), 1 + 16 + 17);
    assert_eq!(typed[0], 24);
    assert_eq!(&typed[1..17], &other.to_be_bytes()[..]);
    assert_eq!(typed[17], 1);
    assert_eq!(typed[18], b'x');
    let tagged = layout(&EncodedTerm::SmallSmallLangStringLiteral { value: small("chat"), language: small("fr") });
    assert_eq!(tagged.len(), 1 + 17 + 17);
    assert_eq!(tagged[0], 20);
    assert_eq!(&tagged[1..4], &[2u8, b'f', b'r'][..]);
    assert_eq!(&tagged[18..23], &[4u8, b'c', b'h', b'a', b't'][..]);
}

#[test]
fn dates_and_durations_have_layouts_of_a_fixed_length() {
    let date_time = layout(&EncodedTerm::DateTimeLiteral(DateTimeFields {
        year: 2020,
        month: 2,
        day: 29,
        hour: 13,
        minute: 20,
        second: 30,
        timezone_offset: Some(-90),
    }));
    let mut expected = vec![34u8, 0, 0, 0, 0, 0, 0, 0x07, 0xe4, 2, 29, 13, 20];
    expected.extend_from_slice(&[0u8; 15]);
    expected.push(30);
    expected.extend_from_slice(&[1, 0xff, 0xa6]);
    assert_eq!(date_time, expected);
    let no_timezone = layout(&EncodedTerm::GYearLiteral(fields(1999, 0, 0, None)));
    assert_eq!(no_timezone.len(), 32);
    assert_eq!(no_timezone[0], 38);
    assert_eq!(&no_timezone[29..], &[0u8, 0, 0][..]);
    let duration = layout(&EncodedTerm::DurationLiteral(Duration { months: 14, seconds: -1 }));
    let mut expected = vec![42u8, 0, 0, 0, 0, 0, 0, 0, 14];
    expected.extend_from_slice(&[0xffu8; 16]);
    assert_eq!(duration, expected);
}

#[test]
fn a_quoted_triple_is_laid_out_term_by_term() {
    let triple = EncodedTerm::Triple(Box::new(EncodedTriple {
        subject: EncodedTerm::BooleanLiteral(true),
        predicate: EncodedTerm::IntegerLiteral(1),
        object: EncodedTerm::Triple(Box::new(EncodedTriple {
            subject: EncodedTerm::DefaultGraph,
            predicate: EncodedTerm::BooleanLiteral(false),
            object: EncodedTerm::BooleanLiteral(true),
        })),
    }));
    assert_eq!(layout(&triple), vec![48u8, 28, 32, 0, 0, 0, 0, 0, 0, 0, 1, 48, 0, 29, 28]);
}

#[test]
fn reading_the_layout_of_a_term_gives_the_term_back() {
    for term in every_kind_of_term() {
        let mut bytes = vec![0xaau8, 0xbb];
        write_term(&mut bytes, &term);
        let end = bytes.len();
        bytes.push(0xcc);
        let (read, next) = read_term(&bytes, 2).expect("a layout can be read");
        assert!(read.identical(&term), "{:?} came back as {:?}", term, read);
        assert_eq!(next, end);
    }
}

#[test]
fn a_layout_that_is_cut_short_or_unknown_is_refused() {
    for term in every_kind_of_term() {
        let bytes = layout(&term);
        assert!(read_term(&bytes[..bytes.len() - 1], 0).is_none(), "{:?}", term);
        assert!(read_term(&bytes, bytes.len()).is_none());
    }
    assert!(read_term(&[], 0).is_none());
    assert!(read_term(&[2u8, 0, 0, 0], 0).is_none());
    assert!(read_term(&[255u8], 0).is_none());
    assert!(read_term(&[48u8, 28, 28], 0).is_none());
}

#[test]
fn the_lexical_space_of_floats_is_recognised() {
    for text in ["3.14", "1e5", "-1.5E-3", "+.5", "5.", "NaN", "INF", "-INF", "+INF", "0", "12e+3"] {
        assert!(is_float_text(text), "{}", text);
    }
    for text in ["nan", "inf", "Infinity", "", ".", "e5", "1e", "1e+", "1.2.3", " 1", "1 ", "0x10", "--1", "-NaN", "1f"] {
        assert!(!is_float_text(text), "{}", text);
    }
}

#[test]
fn a_float_is_held_by_the_bits_of_its_value() {
    let text = "3.14";
    assert!(is_float_text(text));
    let value: f64 = text.parse().expect("a text of the lexical space has a value");
    let literal = Literal::from_double_bits(value.to_bits());
    let encoded = EncodedTerm::from_literal(&literal);
    assert!(encoded.identical(&EncodedTerm::DoubleLiteral(value.to_bits())));
    let (read, _) = read_term(&layout(&encoded), 0).expect("a layout can be read");
    match read {
        EncodedTerm::DoubleLiteral(bits) => assert_eq!(f64::from_bits(bits), 3.14),
        other => panic!("a double came back as {:?}", other),
    }
}

#[test]
fn keys_are_ordered_byte_by_byte() {
    assert!(key_less(&[], &[0]));
    assert!(!key_less(&[], &[]));
    assert!(key_less(&[1, 2], &[1, 3]));
    assert!(key_less(&[1, 2], &[1, 2, 0]));
    assert!(!key_less(&[1, 2, 0], &[1, 2]));
    assert!(key_less(&[1, 255], &[2]));
    assert!(!key_less(&[2], &[1, 255]));
    assert!(!key_less(&[7, 7], &[7, 7]));
    assert!(key_begins_with(&[1, 2, 3], &[1, 2]));
    assert!(key_begins_with(&[1, 2, 3], &[]));
    assert!(key_begins_with(&[1, 2], &[1, 2]));
    assert!(!key_begins_with(&[1, 2], &[1, 2, 3]));
    assert!(!key_begins_with(&[1, 2, 3], &[1, 3]));
}

#[test]
fn a_column_family_keeps_its_keys_in_order() {
    let mut family = ColumnFamily::new();
    assert!(family.is_empty());
    for key in [&[2u8, 1][..], &[1u8][..], &[2u8][..], &[1u8, 255][..], &[][..], &[3u8][..]] {
        assert!(family.insert_empty(key));
    }
    assert!(!family.insert_empty(&[2, 1]));
    assert_eq!(family.len(), 6);
    let keys: Vec<Vec<u8>> = (0..family.len()).map(|at| family.key(at).clone()).collect();
    assert_eq!(keys, vec![vec![], vec![1], vec![1, 255], vec![2], vec![2, 1], vec![3]]);
    assert!(family.contains_key(&[1, 255]));
    assert!(family.contains_key(&[]));
    assert!(!family.contains_key(&[1, 254]));
    assert!(family.remove(&[2]));
    assert!(!family.remove(&[2]));
    assert!(!family.contains_key(&[2]));
    assert_eq!(family.len(), 5);
    let copy = family.duplicate();
    assert!(family.remove(&[3]));
    assert!(copy.contains_key(&[3]));
    assert_eq!(copy.len(), 5);
}

#[test]
fn a_scan_gives_the_keys_that_begin_with_the_prefix() {
    let mut family = ColumnFamily::new();
    for key in [
        &[1u8, 255][..],
        &[1u8, 255, 0][..],
        &[1u8, 255, 255][..],
        &[2u8][..],
        &[1u8, 254][..],
        &[255u8, 255][..],
        &[255u8, 255, 1][..],
        &[0u8][..],
    ] {
        assert!(family.insert_empty(key));
    }
    assert_eq!(family.scan_prefix(&[1, 255]), vec![vec![1, 255], vec![1, 255, 0], vec![1, 255, 255]]);
    assert_eq!(family.scan_prefix(&[1]), vec![vec![1, 254], vec![1, 255], vec![1, 255, 0], vec![1, 255, 255]]);
    assert_eq!(family.scan_prefix(&[255, 255]), vec![vec![255, 255], vec![255, 255, 1]]);
    assert_eq!(family.scan_prefix(&[]).len(), 8);
    assert!(family.scan_prefix(&[3]).is_empty());
    assert!(family.scan_prefix(&[1, 255, 0, 0]).is_empty());
}

fn the_quad(graph: EncodedTerm) -> EncodedQuad {
    EncodedQuad::new(
        named("http://example.com/s"),
        named("http://example.com/p"),
        EncodedTerm::IntegerLiteral(7),
        graph,
    )
}

#[test]
fn the_key_of_a_quad_holds_its_terms_in_the_order_of_the_index() {
    let quad = the_quad(named("http://example.com/g"));
    let s = layout(&quad.subject);
    let p = layout(&quad.predicate);
    let o = layout(&quad.object);
    let g = layout(&quad.graph_name);
    assert_eq!(write_key(QuadIndex::Spog, &quad), [s.clone(), p.clone(), o.clone(), g.clone()].concat());
    assert_eq!(write_key(QuadIndex::Posg, &quad), [p.clone(), o.clone(), s.clone(), g.clone()].concat());
    assert_eq!(write_key(QuadIndex::Ospg, &quad), [o.clone(), s.clone(), p.clone(), g.clone()].concat());
    assert_eq!(write_key(QuadIndex::Gspo, &quad), [g.clone(), s.clone(), p.clone(), o.clone()].concat());
    assert_eq!(write_key(QuadIndex::Gpos, &quad), [g.clone(), p.clone(), o.clone(), s.clone()].concat());
    assert_eq!(write_key(QuadIndex::Gosp, &quad), [g.clone(), o.clone(), s.clone(), p.clone()].concat());
    let in_default = the_quad(EncodedTerm::DefaultGraph);
    assert_eq!(write_key(QuadIndex::Dspo, &in_default), [s.clone(), p.clone(), o.clone()].concat());
    assert_eq!(write_key(QuadIndex::Dpos, &in_default), [p.clone(), o.clone(), s.clone()].concat());
    assert_eq!(write_key(QuadIndex::Dosp, &in_default), [o, s, p].concat());
}

#[test]
fn reading_the_key_of_a_quad_gives_the_quad_back() {
    let quad = the_quad(named("http://example.com/g"));
    for index in [QuadIndex::Spog, QuadIndex::Posg, QuadIndex::Ospg, QuadIndex::Gspo, QuadIndex::Gpos, QuadIndex::Gosp] {
        let key = write_key(index, &quad);
        let read = read_quad(index, &key).expect("a key can be read");
        assert!(read.identical(&quad), "{:?}", index);
        assert!(read_quad(index, &key[..key.len() - 1]).is_none());
        let mut longer = key.clone();
        longer.push(0);
        assert!(read_quad(index, &longer).is_none());
    }
    let in_default = the_quad(EncodedTerm::DefaultGraph);
    for index in [QuadIndex::Dspo, QuadIndex::Dpos, QuadIndex::Dosp] {
        let key = write_key(index, &in_default);
        let read = read_quad(index, &key).expect("a key can be read");
        assert!(read.identical(&in_default), "{:?}", index);
    }
}

#[test]
fn the_layouts_of_some_terms_stand_one_behind_the_other() {
    let terms = vec![EncodedTerm::BooleanLiteral(true), EncodedTerm::IntegerLiteral(1), EncodedTerm::DefaultGraph];
    assert_eq!(write_terms(&terms), vec![28u8, 32, 0, 0, 0, 0, 0, 0, 0, 1, 0]);
    assert!(write_terms(&Vec::new()).is_empty());
}

#[test]
fn an_index_serves_the_terms_with_which_its_keys_begin() {
    let mut index = KeyIndex::new(QuadIndex::Posg);
    let p = named("http://example.com/p");
    let q = named("http://example.com/q");
    let g = named("http://example.com/g");
    let quads = vec![
        EncodedQuad::new(named("http://example.com/a"), p.duplicate(), EncodedTerm::IntegerLiteral(1), g.duplicate()),
        EncodedQuad::new(named("http://example.com/b"), p.duplicate(), EncodedTerm::IntegerLiteral(1), g.duplicate()),
        EncodedQuad::new(named("http://example.com/a"), p.duplicate(), EncodedTerm::IntegerLiteral(2), g.duplicate()),
        EncodedQuad::new(named("http://example.com/a"), q.duplicate(), EncodedTerm::IntegerLiteral(1), g.duplicate()),
    ];
    for quad in &quads {
        assert!(index.insert(quad));
    }
    assert!(!index.insert(&quads[0]));
    assert_eq!(index.len(), 4);
    assert!(index.contains(&quads[2]));
    let with_p = index.scan(&vec![p.duplicate()]);
    assert_eq!(with_p.len(), 3);
    assert!(with_p.iter().all(|quad| quad.predicate.identical(&p)));
    let with_p_and_one = index.scan(&vec![p.duplicate(), EncodedTerm::IntegerLiteral(1)]);
    assert_eq!(with_p_and_one.len(), 2);
    assert!(with_p_and_one.iter().any(|quad| quad.identical(&quads[0])));
    assert!(with_p_and_one.iter().any(|quad| quad.identical(&quads[1])));
    assert_eq!(index.scan(&vec![q.duplicate()]).len(), 1);
    assert_eq!(index.scan(&Vec::new()).len(), 4);
    assert!(index.scan(&vec![g.duplicate()]).is_empty());
    assert!(index.remove(&quads[0]));
    assert!(!index.remove(&quads[0]));
    assert!(!index.contains(&quads[0]));
    assert_eq!(index.scan(&vec![p.duplicate(), EncodedTerm::IntegerLiteral(1)]).len(), 1);
}

#[test]
fn an_index_of_the_default_graph_holds_no_quad_of_a_named_graph() {
    let mut index = KeyIndex::new(QuadIndex::Dspo);
    let in_default = the_quad(EncodedTerm::DefaultGraph);
    let in_named = the_quad(named("http://example.com/g"));
    assert!(index.insert(&in_default));
    assert!(index.contains(&in_default));
    assert!(!index.contains(&in_named));
    assert!(!index.remove(&in_named));
    assert_eq!(index.len(), 1);
    let copy = index.duplicate();
    assert!(index.remove(&in_default));
    assert!(index.is_empty());
    assert!(copy.contains(&in_default));
}

#[test]
fn the_key_of_a_triple_writes_its_terms_out() {
    let node = |text: &str| NamedNode::new_unchecked(text.to_owned());
    let triple = Triple::new(
        Subject::NamedNode(node("a")),
        node("p"),
        Term::Literal(Literal::new_simple_literal("x".to_owned())),
    );
    let mut expected: Vec<u8> = vec![0, 0, 0, 0, 0, 0, 0, 0, 0, 1, 0x61];
    expected.extend_from_slice(&[0, 0, 0, 0, 0, 0, 0, 0, 1, 0x70]);
    expected.extend_from_slice(&[2, 0, 0, 0, 0, 0, 0, 0, 0, 0, 1, 0x78]);
    assert_eq!(triple_key(&triple), expected);
    let typed = |text: &str| {
        Triple::new(
            Subject::BlankNode(BlankNode::new_from_unique_id(7)),
            node("p"),
            Term::Literal(Literal::new_typed_literal(
                text.to_owned(),
                node("http://www.w3.org/2001/XMLSchema#integer"),
            )),
        )
    };
    assert_ne!(triple_key(&typed("01")), triple_key(&typed("1")));
    let key = triple_key(&typed("1"));
    assert_eq!(&key[..18], &[1, 1, 0, 0, 0, 0, 0, 0, 0, 0, 0, 0, 0, 0, 0, 0, 0, 7]);
    let quoted = Triple::new(
        Subject::Triple(Box::new(typed("1"))),
        node("q"),
        Term::Literal(Literal::from_double_bits(1)),
    );
    let key = triple_key(&quoted);
    assert_eq!(key[0], 3);
    assert_eq!(&key[1..19], &[1, 1, 0, 0, 0, 0, 0, 0, 0, 0, 0, 0, 0, 0, 0, 0, 0, 7]);
    assert_eq!(&key[key.len() - 10..], &[2, 4, 0, 0, 0, 0, 0, 0, 0, 1]);
}

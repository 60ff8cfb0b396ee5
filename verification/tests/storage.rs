use oxigraph::model::blank_node::BlankNode;
use oxigraph::model::literal::Literal;
use oxigraph::model::named_node::NamedNode;
use oxigraph::model::triple::{GraphName, Quad, Subject, Term};
use oxigraph::storage::backend::prefix_upper_bound;
use oxigraph::storage::index::{
    choose_all_graphs_index, choose_default_graph_index, choose_named_graph_index, make_key,
    make_prefix, read_key, IndexOrder, QuadIndex, QuadPattern,
};
use oxigraph::storage::numeric_encoder::{decode_quad, EncodedQuad, EncodedTerm, StrHash, StrLookup};
use oxigraph::storage::store::{ConflictError, Storage, StorageReader};

fn iri(text: &str) -> NamedNode {
    NamedNode::new_unchecked(text.to_owned())
}

fn quad(s: &str, p: &str, o: &str, g: Option<&str>) -> Quad {
    Quad::new(
        Subject::NamedNode(iri(s)),
        iri(p),
        Term::NamedNode(iri(o)),
        match g {
            Some(g) => GraphName::NamedNode(iri(g)),
            None => GraphName::DefaultGraph,
        },
    )
}

fn encoded_iri(text: &str) -> EncodedTerm {
    EncodedTerm::from_named_node(&iri(text))
}

fn pattern(s: Option<&str>, p: Option<&str>, o: Option<&str>, g: Option<EncodedTerm>) -> QuadPattern {
    QuadPattern {
        subject: s.map(encoded_iri),
        predicate: p.map(encoded_iri),
        object: o.map(encoded_iri),
        graph_name: g,
    }
}

fn sorted(mut quads: Vec<Quad>) -> Vec<String> {
    let mut lines: Vec<String> = quads.drain(..).map(|q| format!("{:?}", q)).collect();
    lines.sort();
    lines
}

fn decoded(reader: &StorageReader, quads: Vec<EncodedQuad>) -> Vec<Quad> {
    quads
        .iter()
        .map(|q| decode_quad(reader, q).expect("every stored quad can be decoded"))
        .collect()
}

#[test]
fn insert_then_contains() {
    let storage = Storage::new();
    let mut writer = storage.transaction();
    let q = quad("http://a", "http://p", "http://b", None);
    assert!(writer.insert(&q));
    assert!(writer.reader().contains(&EncodedQuad::from_quad(&q)));
    assert_eq!(writer.reader().len(), 1);
}

#[test]
fn insert_twice_remove_once() {
    let storage = Storage::new();
    let mut writer = storage.transaction();
    for g in [None, Some("http://g")] {
        let q = quad("http://a", "http://p", "http://b", g);
        assert!(writer.insert(&q));
        assert!(!writer.insert(&q));
        assert!(writer.remove(&q));
        assert!(!writer.reader().contains(&EncodedQuad::from_quad(&q)));
        assert!(!writer.remove(&q));
    }
    assert!(writer.reader().is_empty());
}

#[test]
fn inserted_quad_matches_every_compatible_pattern() {
    for graph in [None, Some("http://g")] {
        let storage = Storage::new();
        let mut writer = storage.transaction();
        let q = quad("http://a", "http://p", "http://b", graph);
        writer.insert(&quad("http://x", "http://y", "http://z", graph));
        writer.insert(&quad("http://a", "http://y", "http://z", None));
        writer.insert(&quad("http://x", "http://p", "http://b", Some("http://h")));
        writer.insert(&q);
        let encoded = EncodedQuad::from_quad(&q);
        for bits in 0..16u8 {
            let p = QuadPattern {
                subject: if bits & 1 != 0 { Some(encoded.subject.clone()) } else { None },
                predicate: if bits & 2 != 0 { Some(encoded.predicate.clone()) } else { None },
                object: if bits & 4 != 0 { Some(encoded.object.clone()) } else { None },
                graph_name: if bits & 8 != 0 { Some(encoded.graph_name.clone()) } else { None },
            };
            let found = writer.reader().quads_for_pattern(&p);
            assert!(found.iter().any(|f| f.identical(&encoded)), "pattern {}", bits);
            for f in &found {
                assert!(writer.reader().contains(f));
                assert!(bits & 1 == 0 || f.subject.identical(&encoded.subject));
                assert!(bits & 2 == 0 || f.predicate.identical(&encoded.predicate));
                assert!(bits & 4 == 0 || f.object.identical(&encoded.object));
                assert!(bits & 8 == 0 || f.graph_name.identical(&encoded.graph_name));
            }
        }
    }
}

#[test]
fn patterns_select_the_quads_that_match() {
    let storage = Storage::new();
    let mut writer = storage.transaction();
    let all = vec![
        quad("http://a", "http://p", "http://b", None),
        quad("http://a", "http://p", "http://c", None),
        quad("http://a", "http://q", "http://b", Some("http://g")),
        quad("http://b", "http://p", "http://b", Some("http://g")),
        quad("http://b", "http://p", "http://b", Some("http://h")),
    ];
    for q in &all {
        assert!(writer.insert(q));
    }
    let reader = writer.reader();
    let select = |p: QuadPattern| sorted(decoded(reader, reader.quads_for_pattern(&p)));
    let expect = |indexes: &[usize]| sorted(indexes.iter().map(|i| all[*i].clone()).collect());
    assert_eq!(select(pattern(None, None, None, None)), expect(&[0, 1, 2, 3, 4]));
    assert_eq!(select(pattern(Some("http://a"), None, None, None)), expect(&[0, 1, 2]));
    assert_eq!(select(pattern(None, Some("http://p"), None, None)), expect(&[0, 1, 3, 4]));
    assert_eq!(select(pattern(None, None, Some("http://b"), None)), expect(&[0, 2, 3, 4]));
    assert_eq!(
        select(pattern(Some("http://a"), None, Some("http://b"), None)),
        expect(&[0, 2])
    );
    assert_eq!(
        select(pattern(None, None, None, Some(EncodedTerm::DefaultGraph))),
        expect(&[0, 1])
    );
    assert_eq!(
        select(pattern(None, None, None, Some(encoded_iri("http://g")))),
        expect(&[2, 3])
    );
    assert_eq!(
        select(pattern(None, Some("http://p"), Some("http://b"), Some(encoded_iri("http://g")))),
        expect(&[3])
    );
    assert_eq!(
        select(pattern(Some("http://b"), Some("http://p"), Some("http://b"), Some(encoded_iri("http://h")))),
        expect(&[4])
    );
    assert_eq!(
        select(pattern(Some("http://c"), None, None, None)),
        Vec::<String>::new()
    );
    assert_eq!(sorted(decoded(reader, reader.all_quads())), expect(&[0, 1, 2, 3, 4]));
    assert_eq!(sorted(decoded(reader, reader.quads_in_named_graph())), expect(&[2, 3, 4]));
    assert_eq!(
        sorted(decoded(reader, reader.quads_for_graph(&encoded_iri("http://h")))),
        expect(&[4])
    );
}

#[test]
fn the_index_is_chosen_by_the_bound_places() {
    let p = |s: bool, p: bool, o: bool, g: Option<EncodedTerm>| QuadPattern {
        subject: if s { Some(encoded_iri("http://s")) } else { None },
        predicate: if p { Some(encoded_iri("http://p")) } else { None },
        object: if o { Some(encoded_iri("http://o")) } else { None },
        graph_name: g,
    };
    let default = |s: bool, pr: bool, o: bool| {
        choose_default_graph_index(&p(s, pr, o, Some(EncodedTerm::DefaultGraph)))
    };
    assert_eq!(default(false, false, false), QuadIndex::Dspo);
    assert_eq!(default(true, false, false), QuadIndex::Dspo);
    assert_eq!(default(true, true, false), QuadIndex::Dspo);
    assert_eq!(default(true, true, true), QuadIndex::Dspo);
    assert_eq!(default(false, true, false), QuadIndex::Dpos);
    assert_eq!(default(false, false, true), QuadIndex::Dosp);
    assert_eq!(default(false, true, true), QuadIndex::Dpos);
    assert_eq!(default(true, false, true), QuadIndex::Dosp);
    let named = |s: bool, pr: bool, o: bool| {
        choose_named_graph_index(&p(s, pr, o, Some(encoded_iri("http://g"))))
    };
    assert_eq!(named(false, false, false), QuadIndex::Gspo);
    assert_eq!(named(true, false, false), QuadIndex::Gspo);
    assert_eq!(named(false, true, false), QuadIndex::Gpos);
    assert_eq!(named(false, false, true), QuadIndex::Gosp);
    assert_eq!(named(true, true, false), QuadIndex::Gspo);
    assert_eq!(named(false, true, true), QuadIndex::Gpos);
    assert_eq!(named(true, false, true), QuadIndex::Gosp);
    assert_eq!(named(true, true, true), QuadIndex::Gspo);
    let any = |s: bool, pr: bool, o: bool| choose_all_graphs_index(&p(s, pr, o, None));
    assert_eq!(any(false, false, false), QuadIndex::Gspo);
    assert_eq!(any(true, false, false), QuadIndex::Spog);
    assert_eq!(any(false, true, false), QuadIndex::Posg);
    assert_eq!(any(false, false, true), QuadIndex::Ospg);
    assert_eq!(any(true, true, false), QuadIndex::Spog);
    assert_eq!(any(false, true, true), QuadIndex::Posg);
    assert_eq!(any(true, false, true), QuadIndex::Ospg);
    assert_eq!(any(true, true, true), QuadIndex::Spog);
}

#[test]
fn keys_hold_the_terms_in_the_order_of_the_index() {
    let q = EncodedQuad::new(
        EncodedTerm::IntegerLiteral(1),
        EncodedTerm::IntegerLiteral(2),
        EncodedTerm::IntegerLiteral(3),
        EncodedTerm::IntegerLiteral(4),
    );
    let key = make_key(IndexOrder::Gpos, &q);
    assert!(key.first.identical(&EncodedTerm::IntegerLiteral(4)));
    assert!(key.second.identical(&EncodedTerm::IntegerLiteral(2)));
    assert!(key.third.identical(&EncodedTerm::IntegerLiteral(3)));
    assert!(key.fourth.identical(&EncodedTerm::IntegerLiteral(1)));
    for order in [
        IndexOrder::Spog,
        IndexOrder::Posg,
        IndexOrder::Ospg,
        IndexOrder::Gspo,
        IndexOrder::Gpos,
        IndexOrder::Gosp,
    ] {
        assert!(read_key(order, &make_key(order, &q)).identical(&q));
    }
    let p = QuadPattern {
        subject: Some(EncodedTerm::IntegerLiteral(1)),
        predicate: None,
        object: Some(EncodedTerm::IntegerLiteral(3)),
        graph_name: Some(EncodedTerm::IntegerLiteral(4)),
    };
    let prefix = make_prefix(IndexOrder::Gosp, &p);
    assert_eq!(prefix.len(), 3);
    assert!(prefix[0].identical(&EncodedTerm::IntegerLiteral(4)));
    assert!(prefix[1].identical(&EncodedTerm::IntegerLiteral(3)));
    assert!(prefix[2].identical(&EncodedTerm::IntegerLiteral(1)));
    assert!(key_starts(&make_key(IndexOrder::Gosp, &q), &prefix));
    // the prefix stops at the first place that the pattern leaves open
    assert_eq!(make_prefix(IndexOrder::Spog, &p).len(), 1);
    assert_eq!(make_prefix(IndexOrder::Posg, &p).len(), 0);
}

fn key_starts(key: &oxigraph::storage::index::IndexKey, prefix: &Vec<EncodedTerm>) -> bool {
    key.starts_with(prefix)
}

#[test]
fn referenced_strings_are_counted() {
    let storage = Storage::new();
    let mut writer = storage.transaction();
    let a = StrHash::new("http://a");
    let g = StrHash::new("http://g");
    writer.insert(&quad("http://a", "http://a", "http://a", Some("http://g")));
    assert_eq!(writer.reader().get_str(&a).unwrap().as_deref(), Some("http://a"));
    assert_eq!(writer.reader().get_str(&g).unwrap().as_deref(), Some("http://g"));
    writer.insert(&quad("http://a", "http://p", "http://b", Some("http://g")));
    // an insertion that changes nothing counts nothing
    writer.insert(&quad("http://a", "http://p", "http://b", Some("http://g")));
    writer.remove(&quad("http://a", "http://a", "http://a", Some("http://g")));
    assert_eq!(writer.reader().contains_str(&a).unwrap(), true);
    writer.remove(&quad("http://a", "http://p", "http://b", Some("http://g")));
    assert_eq!(writer.reader().contains_str(&a).unwrap(), false);
    assert_eq!(writer.reader().contains_str(&StrHash::new("http://p")).unwrap(), false);
    // the graph is still known, and its name is still there
    assert!(writer.reader().contains_named_graph(&encoded_iri("http://g")));
    assert_eq!(writer.reader().contains_str(&g).unwrap(), true);
    assert!(writer.remove_named_graph(&GraphName::NamedNode(iri("http://g"))));
    assert_eq!(writer.reader().contains_str(&g).unwrap(), false);
}

#[test]
fn clear_empties_every_index_and_the_string_table() {
    let storage = Storage::new();
    let mut writer = storage.transaction();
    writer.insert(&quad("http://a", "http://p", "http://b", None));
    writer.insert(&quad("http://a", "http://p", "http://b", Some("http://g")));
    writer.insert(&Quad::new(
        Subject::BlankNode(BlankNode::new_unchecked("a-label-that-is-longer-than-sixteen-bytes".to_owned())),
        iri("http://p"),
        Term::Literal(Literal::new_simple_literal("a text that is longer than sixteen bytes".to_owned())),
        GraphName::BlankNode(BlankNode::new_unchecked("another-label-longer-than-sixteen-bytes".to_owned())),
    ));
    writer.insert_named_graph(&GraphName::NamedNode(iri("http://empty")));
    writer.clear();
    let reader = writer.reader();
    assert!(reader.is_empty());
    assert_eq!(reader.len(), 0);
    assert!(reader.all_quads().is_empty());
    assert!(reader.list_named_graphs().is_empty());
    for text in [
        "http://a",
        "http://p",
        "http://b",
        "http://g",
        "http://empty",
        "a text that is longer than sixteen bytes",
        "a-label-that-is-longer-than-sixteen-bytes",
        "another-label-longer-than-sixteen-bytes",
    ] {
        assert_eq!(reader.contains_str(&StrHash::new(text)).unwrap(), false, "{}", text);
    }
}

#[test]
fn a_snapshot_keeps_the_state_of_its_time() {
    let mut storage = Storage::new();
    let first = quad("http://a", "http://p", "http://b", None);
    let second = quad("http://a", "http://p", "http://c", None);
    let mut writer = storage.transaction();
    writer.insert(&first);
    assert_eq!(storage.commit(writer), Ok(()));
    let snapshot = storage.snapshot();
    let mut writer = storage.transaction();
    writer.insert(&second);
    writer.remove(&first);
    // nothing is visible before the commit
    assert!(storage.reader().contains(&EncodedQuad::from_quad(&first)));
    assert!(!storage.reader().contains(&EncodedQuad::from_quad(&second)));
    assert_eq!(storage.commit(writer), Ok(()));
    assert!(!storage.reader().contains(&EncodedQuad::from_quad(&first)));
    assert!(storage.reader().contains(&EncodedQuad::from_quad(&second)));
    assert!(snapshot.contains(&EncodedQuad::from_quad(&first)));
    assert!(!snapshot.contains(&EncodedQuad::from_quad(&second)));
    assert_eq!(snapshot.len(), 1);
}

#[test]
fn a_transaction_that_is_given_up_changes_nothing() {
    let storage = Storage::new();
    let mut writer = storage.transaction();
    writer.insert(&quad("http://a", "http://p", "http://b", Some("http://g")));
    storage.rollback(writer);
    assert!(storage.reader().is_empty());
    assert!(storage.reader().list_named_graphs().is_empty());
    assert_eq!(
        storage.reader().contains_str(&StrHash::new("http://a")).unwrap(),
        false
    );
}

#[test]
fn a_transaction_on_an_earlier_state_is_refused() {
    let mut storage = Storage::new();
    let mut first = storage.transaction();
    let mut second = storage.transaction();
    first.insert(&quad("http://a", "http://p", "http://b", None));
    second.insert(&quad("http://a", "http://p", "http://c", None));
    assert_eq!(storage.commit(first), Ok(()));
    assert_eq!(storage.commit(second), Err(ConflictError));
    assert_eq!(storage.reader().len(), 1);
}

#[test]
fn named_graphs_are_known_once_created_or_used() {
    let storage = Storage::new();
    let mut writer = storage.transaction();
    let g = GraphName::NamedNode(iri("http://g"));
    assert!(writer.insert_named_graph(&g));
    assert!(!writer.insert_named_graph(&g));
    assert!(!writer.insert_named_graph(&GraphName::DefaultGraph));
    writer.insert(&quad("http://a", "http://p", "http://b", Some("http://h")));
    assert!(writer.reader().contains_named_graph(&encoded_iri("http://g")));
    assert!(writer.reader().contains_named_graph(&encoded_iri("http://h")));
    assert_eq!(writer.reader().list_named_graphs().len(), 2);
    writer.clear_graph(&GraphName::NamedNode(iri("http://h")));
    assert!(writer.reader().is_empty());
    assert!(writer.reader().contains_named_graph(&encoded_iri("http://h")));
    assert!(writer.remove_named_graph(&GraphName::NamedNode(iri("http://h"))));
    assert!(!writer.remove_named_graph(&GraphName::NamedNode(iri("http://h"))));
    assert!(!writer.reader().contains_named_graph(&encoded_iri("http://h")));
}

#[test]
fn graphs_are_cleared_one_or_all() {
    let storage = Storage::new();
    let fill = || {
        let mut writer = storage.transaction();
        writer.insert(&quad("http://a", "http://p", "http://b", None));
        writer.insert(&quad("http://a", "http://p", "http://b", Some("http://g")));
        writer.insert(&quad("http://a", "http://p", "http://b", Some("http://h")));
        writer
    };
    let mut writer = fill();
    writer.clear_graph(&GraphName::DefaultGraph);
    assert_eq!(writer.reader().len(), 2);
    assert_eq!(writer.reader().quads_in_named_graph().len(), 2);
    let mut writer = fill();
    writer.clear_all_named_graphs();
    assert_eq!(writer.reader().len(), 1);
    assert_eq!(writer.reader().list_named_graphs().len(), 2);
    let mut writer = fill();
    writer.clear_all_graphs();
    assert_eq!(writer.reader().len(), 0);
    assert_eq!(writer.reader().list_named_graphs().len(), 2);
    let mut writer = fill();
    writer.remove_all_named_graphs();
    assert_eq!(writer.reader().len(), 1);
    assert_eq!(writer.reader().list_named_graphs().len(), 0);
}

#[test]
fn the_bound_of_a_scan_raises_the_last_byte_that_can_be_raised() {
    assert_eq!(prefix_upper_bound(&[]), None);
    assert_eq!(prefix_upper_bound(&[1, 2, 3]), Some(vec![1, 2, 4]));
    assert_eq!(prefix_upper_bound(&[0]), Some(vec![1]));
    assert_eq!(prefix_upper_bound(&[1, 255]), Some(vec![2, 255]));
    assert_eq!(prefix_upper_bound(&[1, 254, 255, 255]), Some(vec![1, 255, 255, 255]));
    assert_eq!(prefix_upper_bound(&[255]), None);
    assert_eq!(prefix_upper_bound(&[255, 255, 255]), None);
}

use oxigraph::model::blank_node::BlankNode;
use oxigraph::model::graph::Graph;
use oxigraph::model::isomorphism::CANONICALIZATION_LIMIT;
use oxigraph::model::literal::Literal;
use oxigraph::model::named_node::NamedNode;
use oxigraph::model::triple::{Subject, Term, Triple};

fn iri(text: &str) -> NamedNode {
    NamedNode::new_unchecked(text.to_owned())
}

fn triple(s: &str, p: &str, o: &str) -> Triple {
    Triple::new(Subject::NamedNode(iri(s)), iri(p), Term::NamedNode(iri(o)))
}

fn example() -> Graph {
    let mut graph = Graph::new();
    assert!(graph.insert(triple("http://a", "http://p", "http://b")));
    assert!(graph.insert(triple("http://a", "http://p", "http://c")));
    assert!(graph.insert(triple("http://a", "http://q", "http://b")));
    assert!(graph.insert(triple("http://b", "http://p", "http://b")));
    graph
}

#[test]
fn a_new_graph_is_empty() {
    let graph = Graph::new();
    assert!(graph.is_empty());
    assert_eq!(graph.len(), 0);
    assert!(graph.triples().is_empty());
}

#[test]
fn a_graph_is_a_set_of_triples() {
    let mut graph = Graph::new();
    let t = triple("http://example.com", "http://example.com", "http://example.com");
    assert!(graph.insert(t.clone()));
    assert!(!graph.insert(t.clone()));
    assert!(graph.contains(&t));
    assert_eq!(graph.len(), 1);
    assert_eq!(graph.triples_for_subject(&t.subject), vec![t.clone()]);
    assert!(graph.remove(&t));
    assert!(!graph.remove(&t));
    assert!(!graph.contains(&t));
    assert!(graph.is_empty());
}

#[test]
fn triples_are_found_by_their_terms() {
    let graph = example();
    let a = Subject::NamedNode(iri("http://a"));
    let b = Term::NamedNode(iri("http://b"));
    assert_eq!(
        graph.triples_for_subject(&a),
        vec![
            triple("http://a", "http://p", "http://b"),
            triple("http://a", "http://p", "http://c"),
            triple("http://a", "http://q", "http://b"),
        ]
    );
    assert_eq!(
        graph.triples_for_predicate(&iri("http://q")),
        vec![triple("http://a", "http://q", "http://b")]
    );
    assert_eq!(
        graph.triples_for_object(&b),
        vec![
            triple("http://a", "http://p", "http://b"),
            triple("http://a", "http://q", "http://b"),
            triple("http://b", "http://p", "http://b"),
        ]
    );
    assert_eq!(
        graph.objects_for_subject_predicate(&a, &iri("http://p")),
        vec![Term::NamedNode(iri("http://b")), Term::NamedNode(iri("http://c"))]
    );
    assert_eq!(
        graph.predicates_for_subject_object(&a, &b),
        vec![iri("http://p"), iri("http://q")]
    );
    assert_eq!(
        graph.subjects_for_predicate_object(&iri("http://p"), &b),
        vec![
            Subject::NamedNode(iri("http://a")),
            Subject::NamedNode(iri("http://b"))
        ]
    );
    assert!(graph.triples_for_subject(&Subject::NamedNode(iri("http://z"))).is_empty());
}

#[test]
fn one_object_or_subject_is_given_where_there_is_one() {
    let graph = example();
    let a = Subject::NamedNode(iri("http://a"));
    let found = graph.object_for_subject_predicate(&a, &iri("http://q"));
    assert_eq!(found, Some(Term::NamedNode(iri("http://b"))));
    assert_eq!(graph.object_for_subject_predicate(&a, &iri("http://z")), None);
    let subject = graph.subject_for_predicate_object(&iri("http://q"), &Term::NamedNode(iri("http://b")));
    assert_eq!(subject, Some(Subject::NamedNode(iri("http://a"))));
    assert_eq!(
        graph.subject_for_predicate_object(&iri("http://q"), &Term::NamedNode(iri("http://c"))),
        None
    );
}

#[test]
fn a_graph_can_be_loaded_and_cleared() {
    let mut graph = example();
    graph.load(vec![
        triple("http://a", "http://p", "http://b"),
        triple("http://c", "http://p", "http://b"),
        Triple::new(
            Subject::NamedNode(iri("http://c")),
            iri("http://p"),
            Term::Literal(Literal::new_simple_literal("text".to_owned())),
        ),
    ]);
    assert_eq!(graph.len(), 6);
    let mut dumped: Vec<String> = graph.dump().iter().map(|t| format!("{:?}", t)).collect();
    let mut held: Vec<String> = graph.triples().iter().map(|t| format!("{:?}", t)).collect();
    dumped.sort();
    held.sort();
    assert_eq!(dumped, held);
    assert_eq!(dumped.len(), 6);
    graph.clear();
    assert!(graph.is_empty());
    assert_eq!(graph.len(), 0);
}

fn blank(label: &str) -> BlankNode {
    BlankNode::new_unchecked(label.to_owned())
}

fn edge(from: &str, predicate: &str, to: &str) -> Triple {
    Triple::new(Subject::BlankNode(blank(from)), iri(predicate), Term::BlankNode(blank(to)))
}

fn graph_of(triples: Vec<Triple>) -> Graph {
    let mut graph = Graph::new();
    graph.load(triples);
    graph
}

fn lines(graph: &Graph) -> Vec<String> {
    let mut lines: Vec<String> = graph.triples().iter().map(|t| format!("{:?}", t)).collect();
    lines.sort();
    lines
}

#[test]
fn graphs_that_differ_in_the_names_of_their_blank_nodes_get_the_same_form() {
    let mut first = graph_of(vec![
        Triple::new(Subject::NamedNode(iri("http://s")), iri("http://p"), Term::BlankNode(blank("a"))),
        Triple::new(Subject::BlankNode(blank("a")), iri("http://q"), Term::NamedNode(iri("http://o"))),
        edge("a", "http://r", "b"),
        Triple::new(Subject::BlankNode(blank("b")), iri("http://q"), Term::Literal(Literal::new_simple_literal("x".to_owned()))),
    ]);
    let mut second = graph_of(vec![
        Triple::new(Subject::BlankNode(blank("zz")), iri("http://q"), Term::Literal(Literal::new_simple_literal("x".to_owned()))),
        edge("1f", "http://r", "zz"),
        Triple::new(Subject::BlankNode(blank("1f")), iri("http://q"), Term::NamedNode(iri("http://o"))),
        Triple::new(Subject::NamedNode(iri("http://s")), iri("http://p"), Term::BlankNode(blank("1f"))),
    ]);
    assert_ne!(lines(&first), lines(&second));
    assert!(first.canonicalize());
    assert!(second.canonicalize());
    assert_eq!(lines(&first), lines(&second));
    assert_eq!(first.len(), 4);
}

#[test]
fn a_ring_of_blank_nodes_gets_the_same_form_from_wherever_it_is_named() {
    let mut first = graph_of(vec![edge("a", "http://p", "b"), edge("b", "http://p", "c"), edge("c", "http://p", "a")]);
    let mut second = graph_of(vec![edge("y", "http://p", "z"), edge("x", "http://p", "y"), edge("z", "http://p", "x")]);
    let mut other_way = graph_of(vec![edge("b", "http://p", "a"), edge("c", "http://p", "b"), edge("a", "http://p", "c")]);
    assert!(first.canonicalize());
    assert!(second.canonicalize());
    assert!(other_way.canonicalize());
    assert_eq!(lines(&first), lines(&second));
    assert_eq!(lines(&first), lines(&other_way));
    assert_eq!(first.len(), 3);
}

#[test]
fn graphs_of_another_shape_get_another_form() {
    let mut chain = graph_of(vec![edge("a", "http://p", "b"), edge("b", "http://p", "c")]);
    let mut fork = graph_of(vec![edge("a", "http://p", "b"), edge("a", "http://p", "c")]);
    let mut ring = graph_of(vec![edge("a", "http://p", "b"), edge("b", "http://p", "a")]);
    assert!(chain.canonicalize());
    assert!(fork.canonicalize());
    assert!(ring.canonicalize());
    assert_ne!(lines(&chain), lines(&fork));
    assert_ne!(lines(&chain), lines(&ring));
    assert_ne!(lines(&fork), lines(&ring));
}

#[test]
fn the_canonical_form_keeps_what_is_no_blank_node() {
    let mut graph = example();
    let before = lines(&graph);
    assert!(graph.canonicalize());
    assert_eq!(lines(&graph), before);
    let mut empty = Graph::new();
    assert!(empty.canonicalize());
    assert!(empty.is_empty());
}

#[test]
fn the_canonical_form_is_its_own_canonical_form() {
    let mut graph = graph_of(vec![
        edge("a", "http://p", "b"),
        edge("b", "http://q", "c"),
        Triple::new(Subject::BlankNode(blank("c")), iri("http://q"), Term::NamedNode(iri("http://o"))),
        Triple::new(
            Subject::Triple(Box::new(edge("a", "http://p", "b"))),
            iri("http://said"),
            Term::BlankNode(blank("d")),
        ),
    ]);
    assert!(graph.canonicalize());
    let once = lines(&graph);
    assert_eq!(once.len(), 4);
    assert!(graph.canonicalize());
    assert_eq!(lines(&graph), once);
}

#[test]
fn a_graph_with_too_many_blank_nodes_stays_as_it_is() {
    let mut triples = Vec::new();
    for i in 0..CANONICALIZATION_LIMIT + 1 {
        triples.push(edge(&format!("n{}", i), "http://p", &format!("n{}", (i + 1) % (CANONICALIZATION_LIMIT + 1))));
    }
    let mut graph = graph_of(triples);
    let before = lines(&graph);
    assert!(!graph.canonicalize());
    assert_eq!(lines(&graph), before);
    let mut at_the_limit = graph_of(
        (0..CANONICALIZATION_LIMIT)
            .map(|i| Triple::new(Subject::BlankNode(blank(&format!("n{}", i))), iri("http://p"), Term::NamedNode(iri(&format!("http://o{}", i)))))
            .collect(),
    );
    assert!(at_the_limit.canonicalize());
    assert_eq!(at_the_limit.len(), CANONICALIZATION_LIMIT);
}

#[test]
fn one_object_is_the_first_that_came_in() {
    let mut graph = example();
    let a = Subject::NamedNode(iri("http://a"));
    let p = iri("http://p");
    let objects = graph.objects_for_subject_predicate(&a, &p);
    assert_eq!(objects, vec![Term::NamedNode(iri("http://b")), Term::NamedNode(iri("http://c"))]);
    assert_eq!(graph.object_for_subject_predicate(&a, &p), Some(Term::NamedNode(iri("http://b"))));
    assert!(graph.remove(&triple("http://a", "http://p", "http://b")));
    assert_eq!(graph.object_for_subject_predicate(&a, &p), Some(Term::NamedNode(iri("http://c"))));
    assert!(graph.insert(triple("http://a", "http://p", "http://b")));
    assert_eq!(graph.object_for_subject_predicate(&a, &p), Some(Term::NamedNode(iri("http://c"))));
    let b = Term::NamedNode(iri("http://b"));
    let subjects = graph.subjects_for_predicate_object(&p, &b);
    assert_eq!(
        subjects,
        vec![Subject::NamedNode(iri("http://b")), Subject::NamedNode(iri("http://a"))]
    );
    assert_eq!(
        graph.subject_for_predicate_object(&p, &b),
        Some(Subject::NamedNode(iri("http://b")))
    );
    let listed: Vec<Triple> = graph.triples();
    assert_eq!(listed.last(), Some(&triple("http://a", "http://p", "http://b")));
}

#[test]
fn literals_that_are_written_differently_are_told_apart_in_the_canonical_form() {
    let integer = |text: &str| {
        Term::Literal(Literal::new_typed_literal(
            text.to_owned(),
            iri("http://www.w3.org/2001/XMLSchema#integer"),
        ))
    };
    let long = "http://example.com/a/very/long/iri/that/does/not/fit/in/a/few/bytes";
    let mut first = graph_of(vec![
        Triple::new(Subject::BlankNode(blank("a")), iri(long), integer("01")),
        Triple::new(Subject::BlankNode(blank("b")), iri(long), integer("1")),
    ]);
    let mut second = graph_of(vec![
        Triple::new(Subject::BlankNode(blank("a")), iri(long), integer("1")),
        Triple::new(Subject::BlankNode(blank("b")), iri(long), integer("01")),
    ]);
    let mut third = graph_of(vec![
        Triple::new(Subject::BlankNode(blank("x")), iri(long), integer("1")),
        Triple::new(Subject::BlankNode(blank("y")), iri(long), integer("1")),
    ]);
    assert!(first.canonicalize());
    assert!(second.canonicalize());
    assert!(third.canonicalize());
    assert_eq!(lines(&first), lines(&second));
    assert_eq!(first.len(), 2);
    assert_eq!(third.len(), 2);
    assert_ne!(lines(&first), lines(&third));
}

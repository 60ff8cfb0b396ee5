use oxigraph::model::blank_node::BlankNode;
use oxigraph::model::literal::Literal;
use oxigraph::model::named_node::NamedNode;
use oxigraph::model::triple::{GraphName, Quad, Subject, Term, Triple};
use oxigraph::sparql::algebra::{
    GraphNamePattern, GraphPattern, GraphTarget, GraphUpdateOperation, NamedNodePattern,
    QuadPattern, TermPattern, TriplePattern, Update, Variable,
};
use oxigraph::sparql::error::EvaluationError;
use oxigraph::sparql::options::{QueryOptions, UpdateOptions};
use oxigraph::sparql::plan_builder::PlanVariable;
use oxigraph::sparql::projection::project_solutions;
use oxigraph::sparql::query::{evaluate_query, Query, QueryResults, QuerySolution};
use oxigraph::sparql::update::{evaluate_update, LoadedSource};
use oxigraph::storage::numeric_encoder::{decode_quad, EncodedQuad};
use oxigraph::storage::store::Storage;

fn iri(text: &str) -> NamedNode {
    NamedNode::new_unchecked(format!("http://example.com/{}", text))
}

fn node(text: &str) -> TermPattern {
    TermPattern::NamedNode(iri(text))
}

fn var(name: &str) -> Variable {
    Variable::new(name.to_owned())
}

fn variable(name: &str) -> TermPattern {
    TermPattern::Variable(var(name))
}

fn string(text: &str) -> Literal {
    Literal::new_simple_literal(text.to_owned())
}

fn integer(text: &str) -> Literal {
    Literal::new_typed_literal(
        text.to_owned(),
        NamedNode::new_unchecked("http://www.w3.org/2001/XMLSchema#integer".to_owned()),
    )
}

fn tp(s: TermPattern, p: &str, o: TermPattern) -> TriplePattern {
    TriplePattern { subject: s, predicate: NamedNodePattern::NamedNode(iri(p)), object: o }
}

fn bgp(patterns: Vec<TriplePattern>) -> GraphPattern {
    GraphPattern::Bgp { patterns }
}

fn data(s: &str, p: &str, o: Term) -> Quad {
    Quad::new(Subject::NamedNode(iri(s)), iri(p), o, GraphName::DefaultGraph)
}

fn update(storage: &mut Storage, operations: Vec<GraphUpdateOperation>) -> Result<(), EvaluationError> {
    let options = UpdateOptions::new(QueryOptions::new());
    evaluate_update(storage, &Update { operations, base_iri: None }, &options, &Vec::new())
}

fn select(storage: &Storage, pattern: GraphPattern) -> (Vec<PlanVariable>, Vec<QuerySolution>) {
    let reader = storage.snapshot();
    match evaluate_query(&reader, &Query::Select { pattern }, &QueryOptions::new()) {
        Ok(QueryResults::Solutions { variables, solutions }) => (variables, solutions),
        other => panic!("unexpected results {:?}", other),
    }
}

fn ask(storage: &Storage, pattern: GraphPattern) -> bool {
    let reader = storage.snapshot();
    match evaluate_query(&reader, &Query::Ask { pattern }, &QueryOptions::new()) {
        Ok(QueryResults::Boolean(found)) => found,
        other => panic!("unexpected results {:?}", other),
    }
}

fn rows(variables: &Vec<PlanVariable>, solutions: &Vec<QuerySolution>, names: &[&str]) -> Vec<Vec<Option<Term>>> {
    let mut rows: Vec<Vec<Option<Term>>> = solutions
        .iter()
        .map(|solution| {
            names
                .iter()
                .map(|name| solution.get(variables, &var(name)).cloned())
                .collect()
        })
        .collect();
    rows.sort_by_key(|row| format!("{:?}", row));
    rows
}

fn stored(storage: &Storage) -> Vec<Quad> {
    let reader = storage.snapshot();
    let mut quads: Vec<Quad> = reader
        .all_quads()
        .iter()
        .map(|q| decode_quad(&reader, q).unwrap())
        .collect();
    quads.sort_by_key(|quad| format!("{:?}", quad));
    quads
}

#[test]
fn insert_and_query() {
    let mut storage = Storage::new();
    let quad = data("a", "p", Term::Literal(string("1")));
    update(&mut storage, vec![GraphUpdateOperation::InsertData { data: vec![quad] }]).unwrap();
    let (variables, solutions) = select(&storage, bgp(vec![tp(node("a"), "p", variable("o"))]));
    assert_eq!(
        rows(&variables, &solutions, &["o"]),
        vec![vec![Some(Term::Literal(string("1")))]]
    );
    match &solutions[0].values[0] {
        Some(Term::Literal(literal)) => {
            assert_eq!(literal.value(), Some("1"));
            assert_eq!(literal.datatype(), "http://www.w3.org/2001/XMLSchema#string");
        }
        other => panic!("unexpected binding {:?}", other),
    }
}

#[test]
fn query_returns_a_double() {
    let mut storage = Storage::new();
    let quad = data("a", "p", Term::Literal(Literal::from_double_bits(3.14f64.to_bits())));
    update(&mut storage, vec![GraphUpdateOperation::InsertData { data: vec![quad] }]).unwrap();
    let (variables, solutions) = select(&storage, bgp(vec![tp(node("a"), "p", variable("o"))]));
    assert_eq!(solutions.len(), 1);
    match solutions[0].get(&variables, &var("o")) {
        Some(Term::Literal(literal)) => {
            assert_eq!(literal.double_bits().map(f64::from_bits), Some(3.14));
            assert_eq!(literal.datatype(), "http://www.w3.org/2001/XMLSchema#double");
        }
        other => panic!("unexpected binding {:?}", other),
    }
}

#[test]
fn optional() {
    let mut storage = Storage::new();
    update(
        &mut storage,
        vec![GraphUpdateOperation::InsertData {
            data: vec![
                data("a", "p", Term::Literal(integer("1"))),
                data("b", "p", Term::Literal(integer("2"))),
                data("a", "q", Term::Literal(string("x"))),
            ],
        }],
    )
    .unwrap();
    let pattern = GraphPattern::LeftJoin {
        left: Box::new(bgp(vec![tp(variable("s"), "p", variable("v"))])),
        right: Box::new(bgp(vec![tp(variable("s"), "q", variable("q"))])),
    };
    let (variables, solutions) = select(&storage, pattern);
    assert_eq!(
        rows(&variables, &solutions, &["s", "q"]),
        vec![
            vec![Some(Term::NamedNode(iri("a"))), Some(Term::Literal(string("x")))],
            vec![Some(Term::NamedNode(iri("b"))), None],
        ]
    );
}

#[test]
fn update_transactional() {
    let mut storage = Storage::new();
    let template = QuadPattern {
        subject: node("a"),
        predicate: NamedNodePattern::NamedNode(iri("p")),
        object: node("b"),
        graph_name: GraphNamePattern::DefaultGraph,
    };
    let result = update(
        &mut storage,
        vec![GraphUpdateOperation::DeleteInsert {
            delete: vec![],
            insert: vec![template],
            pattern: bgp(vec![tp(node("c"), "p", node("b"))]),
        }],
    );
    assert!(result.is_ok());
    assert!(storage.reader().is_empty());
    assert!(stored(&storage).is_empty());
}

#[test]
fn delete_insert_rewrites_what_matches() {
    let mut storage = Storage::new();
    update(
        &mut storage,
        vec![GraphUpdateOperation::InsertData {
            data: vec![
                data("a", "p", Term::NamedNode(iri("x"))),
                data("b", "p", Term::NamedNode(iri("y"))),
                data("c", "q", Term::NamedNode(iri("z"))),
            ],
        }],
    )
    .unwrap();
    let quad_pattern = |p: &str, g: GraphNamePattern| QuadPattern {
        subject: variable("s"),
        predicate: NamedNodePattern::NamedNode(iri(p)),
        object: variable("o"),
        graph_name: g,
    };
    update(
        &mut storage,
        vec![GraphUpdateOperation::DeleteInsert {
            delete: vec![quad_pattern("p", GraphNamePattern::DefaultGraph)],
            insert: vec![
                quad_pattern("r", GraphNamePattern::NamedNode(iri("g"))),
                // a template with a variable that is not bound makes nothing
                QuadPattern {
                    subject: variable("s"),
                    predicate: NamedNodePattern::NamedNode(iri("r")),
                    object: variable("unbound"),
                    graph_name: GraphNamePattern::DefaultGraph,
                },
            ],
            pattern: bgp(vec![tp(variable("s"), "p", variable("o"))]),
        }],
    )
    .unwrap();
    let in_g = |s: &str, o: &str| {
        Quad::new(
            Subject::NamedNode(iri(s)),
            iri("r"),
            Term::NamedNode(iri(o)),
            GraphName::NamedNode(iri("g")),
        )
    };
    let mut expected = vec![data("c", "q", Term::NamedNode(iri("z"))), in_g("a", "x"), in_g("b", "y")];
    expected.sort_by_key(|quad| format!("{:?}", quad));
    assert_eq!(stored(&storage), expected);
}

#[test]
fn templates_get_fresh_blank_nodes_for_each_solution() {
    let mut storage = Storage::new();
    update(
        &mut storage,
        vec![GraphUpdateOperation::InsertData {
            data: vec![
                data("a", "p", Term::NamedNode(iri("x"))),
                data("b", "p", Term::NamedNode(iri("y"))),
            ],
        }],
    )
    .unwrap();
    let blank = || TermPattern::BlankNode(BlankNode::new_unchecked("b".to_owned()));
    let template = |p: &str, s: TermPattern, o: TermPattern| QuadPattern {
        subject: s,
        predicate: NamedNodePattern::NamedNode(iri(p)),
        object: o,
        graph_name: GraphNamePattern::DefaultGraph,
    };
    update(
        &mut storage,
        vec![GraphUpdateOperation::DeleteInsert {
            // a template to delete with a blank node takes nothing out
            delete: vec![template("p", variable("s"), blank())],
            insert: vec![
                template("first", variable("s"), blank()),
                template("second", blank(), variable("o")),
            ],
            pattern: bgp(vec![tp(variable("s"), "p", variable("o"))]),
        }],
    )
    .unwrap();
    let quads = stored(&storage);
    assert_eq!(quads.len(), 6);
    let object_of = |s: &str| {
        quads
            .iter()
            .find(|q| q.subject == Subject::NamedNode(iri(s)) && q.predicate == iri("first"))
            .map(|q| q.object.clone())
            .unwrap()
    };
    let subject_of = |o: &str| {
        quads
            .iter()
            .find(|q| q.object == Term::NamedNode(iri(o)) && q.predicate == iri("second"))
            .map(|q| q.subject.clone())
            .unwrap()
    };
    // the same blank node within a solution, another one in the other
    assert_eq!(object_of("a"), subject_of("x").into_term());
    assert_eq!(object_of("b"), subject_of("y").into_term());
    assert_ne!(object_of("a"), object_of("b"));
    assert!(matches!(object_of("a"), Term::BlankNode(_)));
}

#[test]
fn insert_data_renames_blank_nodes_once() {
    let mut storage = Storage::new();
    let blank = || BlankNode::new_unchecked("b".to_owned());
    update(
        &mut storage,
        vec![GraphUpdateOperation::InsertData {
            data: vec![
                Quad::new(Subject::BlankNode(blank()), iri("p"), Term::NamedNode(iri("x")), GraphName::DefaultGraph),
                Quad::new(Subject::NamedNode(iri("a")), iri("q"), Term::BlankNode(blank()), GraphName::DefaultGraph),
            ],
        }],
    )
    .unwrap();
    let quads = stored(&storage);
    assert_eq!(quads.len(), 2);
    let subject = quads.iter().find(|q| q.predicate == iri("p")).unwrap().subject.clone();
    let object = quads.iter().find(|q| q.predicate == iri("q")).unwrap().object.clone();
    assert_eq!(subject.into_term(), object);
    assert_ne!(object, Term::BlankNode(blank()));
}

#[test]
fn delete_data_takes_quads_out() {
    let mut storage = Storage::new();
    update(
        &mut storage,
        vec![
            GraphUpdateOperation::InsertData {
                data: vec![
                    data("a", "p", Term::NamedNode(iri("x"))),
                    data("b", "p", Term::NamedNode(iri("y"))),
                ],
            },
            GraphUpdateOperation::DeleteData {
                data: vec![
                    data("a", "p", Term::NamedNode(iri("x"))),
                    data("never", "p", Term::NamedNode(iri("there"))),
                ],
            },
        ],
    )
    .unwrap();
    assert_eq!(stored(&storage), vec![data("b", "p", Term::NamedNode(iri("y")))]);
}

#[test]
fn graph_lifecycle() {
    let mut storage = Storage::new();
    let create = |silent: bool| GraphUpdateOperation::Create { silent, graph: iri("g") };
    let drop = |silent: bool| GraphUpdateOperation::Drop {
        silent,
        graph: GraphTarget::NamedNode(iri("g")),
    };
    assert!(update(&mut storage, vec![create(false)]).is_ok());
    assert_eq!(storage.reader().list_named_graphs().len(), 1);
    match update(&mut storage, vec![create(false)]) {
        Err(error @ EvaluationError::GraphAlreadyExists { .. }) => {
            assert_eq!(error.message(), "The graph <http://example.com/g> already exists")
        }
        other => panic!("unexpected outcome {:?}", other),
    }
    assert!(update(&mut storage, vec![create(true)]).is_ok());
    assert!(update(&mut storage, vec![drop(false)]).is_ok());
    assert!(storage.reader().list_named_graphs().is_empty());
    match update(&mut storage, vec![drop(false)]) {
        Err(error @ EvaluationError::GraphDoesNotExist { .. }) => {
            assert_eq!(error.message(), "The graph <http://example.com/g> does not exists")
        }
        other => panic!("unexpected outcome {:?}", other),
    }
    assert!(update(&mut storage, vec![drop(true)]).is_ok());
}

#[test]
fn an_update_that_fails_changes_nothing() {
    let mut storage = Storage::new();
    update(&mut storage, vec![GraphUpdateOperation::Create { silent: false, graph: iri("g") }]).unwrap();
    let result = update(
        &mut storage,
        vec![
            GraphUpdateOperation::InsertData { data: vec![data("a", "p", Term::NamedNode(iri("x")))] },
            GraphUpdateOperation::Create { silent: false, graph: iri("h") },
            GraphUpdateOperation::Create { silent: false, graph: iri("g") },
        ],
    );
    assert!(matches!(result, Err(EvaluationError::GraphAlreadyExists { .. })));
    assert!(storage.reader().is_empty());
    assert_eq!(storage.reader().list_named_graphs().len(), 1);
}

#[test]
fn clear_and_drop_by_target() {
    let fill = || {
        let mut storage = Storage::new();
        update(
            &mut storage,
            vec![GraphUpdateOperation::InsertData {
                data: vec![
                    data("a", "p", Term::NamedNode(iri("x"))),
                    Quad::new(Subject::NamedNode(iri("a")), iri("p"), Term::NamedNode(iri("x")), GraphName::NamedNode(iri("g"))),
                    Quad::new(Subject::NamedNode(iri("a")), iri("p"), Term::NamedNode(iri("x")), GraphName::NamedNode(iri("h"))),
                ],
            }],
        )
        .unwrap();
        storage
    };
    let counts = |operation: GraphUpdateOperation| {
        let mut storage = fill();
        update(&mut storage, vec![operation]).unwrap();
        (storage.reader().len(), storage.reader().list_named_graphs().len())
    };
    let clear = |graph: GraphTarget| GraphUpdateOperation::Clear { silent: false, graph };
    let drop = |graph: GraphTarget| GraphUpdateOperation::Drop { silent: false, graph };
    assert_eq!(counts(clear(GraphTarget::NamedNode(iri("g")))), (2, 2));
    assert_eq!(counts(clear(GraphTarget::DefaultGraph)), (2, 2));
    assert_eq!(counts(clear(GraphTarget::NamedGraphs)), (1, 2));
    assert_eq!(counts(clear(GraphTarget::AllGraphs)), (0, 2));
    assert_eq!(counts(drop(GraphTarget::NamedNode(iri("g")))), (2, 1));
    assert_eq!(counts(drop(GraphTarget::DefaultGraph)), (2, 2));
    assert_eq!(counts(drop(GraphTarget::NamedGraphs)), (1, 0));
    assert_eq!(counts(drop(GraphTarget::AllGraphs)), (0, 0));
    let mut storage = fill();
    let missing = GraphUpdateOperation::Clear { silent: false, graph: GraphTarget::NamedNode(iri("z")) };
    assert!(matches!(
        update(&mut storage, vec![missing]),
        Err(EvaluationError::GraphDoesNotExist { .. })
    ));
    let silent = GraphUpdateOperation::Clear { silent: true, graph: GraphTarget::NamedNode(iri("z")) };
    assert!(update(&mut storage, vec![silent]).is_ok());
    assert_eq!(storage.reader().len(), 3);
}

#[test]
fn rdf_star() {
    let mut storage = Storage::new();
    let quoted = Triple::new(Subject::NamedNode(iri("a")), iri("p"), Term::NamedNode(iri("b")));
    update(
        &mut storage,
        vec![GraphUpdateOperation::InsertData {
            data: vec![Quad::new(
                Subject::Triple(Box::new(quoted.clone())),
                iri("q"),
                Term::Literal(string("annotation")),
                GraphName::DefaultGraph,
            )],
        }],
    )
    .unwrap();
    let pattern = bgp(vec![tp(
        variable("s"),
        "q",
        TermPattern::Literal(string("annotation")),
    )]);
    let (variables, solutions) = select(&storage, pattern);
    assert_eq!(
        rows(&variables, &solutions, &["s"]),
        vec![vec![Some(Term::Triple(Box::new(quoted)))]]
    );
}

#[test]
fn load_adds_what_was_fetched() {
    let mut storage = Storage::new();
    let options = UpdateOptions::new(QueryOptions::new());
    let source = NamedNode::new_unchecked("http://example.com/data.nt".to_owned());
    let load = |silent: bool, source: &NamedNode| Update {
        operations: vec![GraphUpdateOperation::Load {
            silent,
            source: source.clone(),
            destination: GraphName::NamedNode(iri("g")),
        }],
        base_iri: None,
    };
    let fetched = vec![LoadedSource {
        source: source.clone(),
        outcome: Ok(vec![Triple::new(Subject::NamedNode(iri("a")), iri("p"), Term::NamedNode(iri("b")))]),
    }];
    assert!(evaluate_update(&mut storage, &load(false, &source), &options, &fetched).is_ok());
    assert_eq!(
        stored(&storage),
        vec![Quad::new(
            Subject::NamedNode(iri("a")),
            iri("p"),
            Term::NamedNode(iri("b")),
            GraphName::NamedNode(iri("g"))
        )]
    );
    let failed = vec![LoadedSource { source: source.clone(), outcome: Err("404".to_owned()) }];
    match evaluate_update(&mut storage, &load(false, &source), &options, &failed) {
        Err(error @ EvaluationError::Load { .. }) => assert_eq!(error.message(), "404"),
        other => panic!("unexpected outcome {:?}", other),
    }
    assert!(evaluate_update(&mut storage, &load(true, &source), &options, &failed).is_ok());
    match evaluate_update(&mut storage, &load(false, &source), &options, &Vec::new()) {
        Err(error @ EvaluationError::Load { .. }) => {
            assert_eq!(error.message(), "Nothing was fetched for the source")
        }
        other => panic!("unexpected outcome {:?}", other),
    }
    assert_eq!(storage.reader().len(), 1);
}

#[test]
fn joins_unions_and_graphs() {
    let mut storage = Storage::new();
    update(
        &mut storage,
        vec![GraphUpdateOperation::InsertData {
            data: vec![
                data("a", "p", Term::NamedNode(iri("b"))),
                data("b", "p", Term::NamedNode(iri("c"))),
                data("c", "q", Term::NamedNode(iri("c"))),
                Quad::new(Subject::NamedNode(iri("a")), iri("p"), Term::NamedNode(iri("z")), GraphName::NamedNode(iri("g"))),
            ],
        }],
    )
    .unwrap();
    // a path of two steps
    let (variables, solutions) = select(
        &storage,
        bgp(vec![tp(variable("x"), "p", variable("y")), tp(variable("y"), "p", variable("z"))]),
    );
    assert_eq!(
        rows(&variables, &solutions, &["x", "z"]),
        vec![vec![Some(Term::NamedNode(iri("a"))), Some(Term::NamedNode(iri("c")))]]
    );
    // a variable at two places has to take one term
    let (variables, solutions) = select(&storage, bgp(vec![tp(variable("x"), "q", variable("x"))]));
    assert_eq!(rows(&variables, &solutions, &["x"]), vec![vec![Some(Term::NamedNode(iri("c")))]]);
    let (_, solutions) = select(&storage, bgp(vec![tp(variable("x"), "p", variable("x"))]));
    assert!(solutions.is_empty());
    // a join of two patterns
    let join = GraphPattern::Join {
        left: Box::new(bgp(vec![tp(variable("x"), "p", variable("y"))])),
        right: Box::new(bgp(vec![tp(variable("y"), "q", variable("y"))])),
    };
    let (variables, solutions) = select(&storage, join);
    assert_eq!(rows(&variables, &solutions, &["x"]), vec![vec![Some(Term::NamedNode(iri("b")))]]);
    // a union
    let union = GraphPattern::Union {
        left: Box::new(bgp(vec![tp(node("a"), "p", variable("o"))])),
        right: Box::new(bgp(vec![tp(node("c"), "q", variable("o"))])),
    };
    let (variables, solutions) = select(&storage, union);
    assert_eq!(
        rows(&variables, &solutions, &["o"]),
        vec![vec![Some(Term::NamedNode(iri("b")))], vec![Some(Term::NamedNode(iri("c")))]]
    );
    // a named graph, by name and by variable
    let in_graph = |name: NamedNodePattern| GraphPattern::Graph {
        name,
        inner: Box::new(bgp(vec![tp(node("a"), "p", variable("o"))])),
    };
    let (variables, solutions) = select(&storage, in_graph(NamedNodePattern::NamedNode(iri("g"))));
    assert_eq!(rows(&variables, &solutions, &["o"]), vec![vec![Some(Term::NamedNode(iri("z")))]]);
    let (variables, solutions) = select(&storage, in_graph(NamedNodePattern::Variable(var("g"))));
    assert_eq!(
        rows(&variables, &solutions, &["g", "o"]),
        vec![vec![Some(Term::NamedNode(iri("g"))), Some(Term::NamedNode(iri("z")))]]
    );
    // the empty pattern has one solution that binds nothing
    let (_, solutions) = select(&storage, bgp(vec![]));
    assert_eq!(solutions.len(), 1);
    assert!(ask(&storage, bgp(vec![tp(node("a"), "p", variable("o"))])));
    assert!(!ask(&storage, bgp(vec![tp(node("z"), "p", variable("o"))])));
}

#[test]
fn blank_nodes_of_a_pattern_stand_for_any_term() {
    let mut storage = Storage::new();
    update(
        &mut storage,
        vec![GraphUpdateOperation::InsertData {
            data: vec![
                data("a", "p", Term::NamedNode(iri("b"))),
                data("b", "q", Term::NamedNode(iri("c"))),
            ],
        }],
    )
    .unwrap();
    let blank = || TermPattern::BlankNode(BlankNode::new_unchecked("x".to_owned()));
    let (variables, solutions) =
        select(&storage, bgp(vec![tp(node("a"), "p", blank()), tp(blank(), "q", variable("o"))]));
    assert_eq!(rows(&variables, &solutions, &["o"]), vec![vec![Some(Term::NamedNode(iri("c")))]]);
}

#[test]
fn quoted_triple_patterns_are_refused() {
    let storage = Storage::new();
    let inner = tp(variable("s"), "p", variable("o"));
    let pattern = bgp(vec![tp(TermPattern::Triple(Box::new(inner)), "q", variable("x"))]);
    let reader = storage.snapshot();
    let result = evaluate_query(&reader, &Query::Select { pattern }, &QueryOptions::new());
    match result {
        Err(EvaluationError::Unsupported { msg }) => {
            assert_eq!(msg, "Quoted triple patterns are not supported")
        }
        other => panic!("unexpected results {:?}", other),
    }
}

#[test]
fn stored_quads_can_be_decoded() {
    let mut storage = Storage::new();
    let quad = Quad::new(
        Subject::NamedNode(iri("a")),
        iri("p"),
        Term::Literal(Literal::new_language_tagged_literal_unchecked(
            "a text that is longer than sixteen bytes".to_owned(),
            "en".to_owned(),
        )),
        GraphName::NamedNode(iri("g")),
    );
    update(&mut storage, vec![GraphUpdateOperation::InsertData { data: vec![quad.clone()] }]).unwrap();
    let reader = storage.snapshot();
    assert!(reader.contains(&EncodedQuad::from_quad(&quad)));
    assert_eq!(stored(&storage), vec![quad]);
}

fn names(variables: &Vec<PlanVariable>) -> Vec<Variable> {
    variables
        .iter()
        .map(|slot| match slot {
            PlanVariable::Variable(variable) => variable.clone(),
            PlanVariable::BlankNode(node) => panic!("a blank node has a slot: {:?}", node),
        })
        .collect()
}

#[test]
fn asking_for_every_variable_by_name_is_asking_for_all() {
    let mut storage = Storage::new();
    update(
        &mut storage,
        vec![GraphUpdateOperation::InsertData {
            data: vec![
                data("a", "p", Term::Literal(integer("1"))),
                data("b", "p", Term::Literal(integer("2"))),
                data("a", "q", Term::Literal(string("x"))),
            ],
        }],
    )
    .expect("the data is inserted");
    let pattern = GraphPattern::LeftJoin {
        left: Box::new(bgp(vec![tp(variable("s"), "p", variable("v"))])),
        right: Box::new(bgp(vec![tp(variable("s"), "q", variable("q"))])),
    };
    let (variables, solutions) = select(&storage, pattern);
    assert_eq!(solutions.len(), 2);
    let onto = names(&variables);
    let (projected_variables, projected) = project_solutions(&variables, &solutions, &onto);
    assert_eq!(format!("{:?}", projected_variables), format!("{:?}", variables));
    assert_eq!(format!("{:?}", projected), format!("{:?}", solutions));
}

#[test]
fn a_projection_keeps_the_variables_asked_for_in_their_order() {
    let mut storage = Storage::new();
    update(
        &mut storage,
        vec![GraphUpdateOperation::InsertData {
            data: vec![
                data("a", "p", Term::Literal(integer("1"))),
                data("b", "p", Term::Literal(integer("1"))),
            ],
        }],
    )
    .expect("the data is inserted");
    let (variables, solutions) = select(&storage, bgp(vec![tp(variable("s"), "p", variable("o"))]));
    let onto = vec![var("o"), var("missing"), var("s")];
    let (projected_variables, projected) = project_solutions(&variables, &solutions, &onto);
    assert_eq!(names(&projected_variables), onto);
    assert_eq!(projected.len(), 2);
    for (row, full) in projected.iter().zip(solutions.iter()) {
        assert_eq!(row.values.len(), 3);
        assert_eq!(format!("{:?}", row.values[0]), format!("{:?}", Some(Term::Literal(integer("1")))));
        assert!(row.values[1].is_none());
        assert_eq!(format!("{:?}", row.values[2].as_ref()), format!("{:?}", full.get(&variables, &var("s"))));
    }
    let subjects: Vec<String> = projected.iter().map(|row| format!("{:?}", row.values[2])).collect();
    assert!(subjects[0] != subjects[1]);
    let (no_variables, no_columns) = project_solutions(&variables, &solutions, &Vec::new());
    assert!(no_variables.is_empty());
    assert_eq!(no_columns.len(), 2);
    assert!(no_columns.iter().all(|row| row.values.is_empty()));
}

#[test]
fn a_template_with_a_literal_for_its_predicate_fails_the_update() {
    let mut storage = Storage::new();
    update(
        &mut storage,
        vec![GraphUpdateOperation::InsertData { data: vec![data("a", "p", Term::Literal(string("x")))] }],
    )
    .expect("the data is inserted");
    let before = stored(&storage);
    let outcome = update(
        &mut storage,
        vec![GraphUpdateOperation::DeleteInsert {
            delete: Vec::new(),
            insert: vec![QuadPattern {
                subject: variable("s"),
                predicate: NamedNodePattern::Variable(var("o")),
                object: node("b"),
                graph_name: GraphNamePattern::DefaultGraph,
            }],
            pattern: bgp(vec![tp(variable("s"), "p", variable("o"))]),
        }],
    );
    match outcome {
        Err(EvaluationError::Decoding { msg }) => {
            assert_eq!(msg, "A literal has been found instead of a named node");
        }
        other => panic!("unexpected outcome {:?}", other),
    }
    assert_eq!(format!("{:?}", stored(&storage)), format!("{:?}", before));
}

#[test]
fn every_solution_of_a_query_can_be_decoded() {
    let mut storage = Storage::new();
    let quoted = Triple::new(Subject::NamedNode(iri("a")), iri("p"), Term::BlankNode(BlankNode::new_unchecked("a long label of a blank node".to_owned())));
    update(
        &mut storage,
        vec![GraphUpdateOperation::InsertData {
            data: vec![
                data("a", "p", Term::Literal(string("a text that is too long to be held inline"))),
                data("a", "p", Term::Literal(integer("7"))),
                Quad::new(Subject::Triple(Box::new(quoted)), iri("said"), Term::NamedNode(iri("b")), GraphName::NamedNode(iri("g"))),
            ],
        }],
    )
    .expect("the data is inserted");
    let everything = GraphPattern::Union {
        left: Box::new(bgp(vec![tp(variable("s"), "p", variable("o"))])),
        right: Box::new(GraphPattern::Graph {
            name: NamedNodePattern::Variable(var("g")),
            inner: Box::new(bgp(vec![TriplePattern {
                subject: variable("s"),
                predicate: NamedNodePattern::Variable(var("q")),
                object: variable("o"),
            }])),
        }),
    };
    let (variables, solutions) = select(&storage, everything);
    assert_eq!(solutions.len(), 3);
    assert!(solutions.iter().all(|solution| solution.get(&variables, &var("s")).is_some()));
}

#[test]
fn a_union_keeps_what_both_sides_give() {
    let mut storage = Storage::new();
    update(
        &mut storage,
        vec![GraphUpdateOperation::InsertData {
            data: vec![
                data("a", "p", Term::NamedNode(iri("b"))),
                data("a", "p", Term::NamedNode(iri("c"))),
            ],
        }],
    )
    .unwrap();
    let side = || Box::new(bgp(vec![tp(node("a"), "p", variable("o"))]));
    let (variables, solutions) = select(&storage, GraphPattern::Union { left: side(), right: side() });
    assert_eq!(solutions.len(), 4);
    let b = vec![Some(Term::NamedNode(iri("b")))];
    let c = vec![Some(Term::NamedNode(iri("c")))];
    assert_eq!(rows(&variables, &solutions, &["o"]), vec![b.clone(), b, c.clone(), c]);
    // the solutions of the left side come first, each side in the order of the keys
    let first = solutions[0].get(&variables, &var("o")).cloned();
    let third = solutions[2].get(&variables, &var("o")).cloned();
    assert_eq!(first, third);
    assert_ne!(first, solutions[1].get(&variables, &var("o")).cloned());
    // the empty pattern has its one solution once
    let (_, solutions) = select(&storage, bgp(vec![]));
    assert_eq!(solutions.len(), 1);
}

#[test]
fn data_is_not_added_where_a_later_drop_fails() {
    let mut storage = Storage::new();
    let result = update(
        &mut storage,
        vec![
            GraphUpdateOperation::InsertData {
                data: vec![Quad::new(
                    Subject::NamedNode(iri("a")),
                    iri("p"),
                    Term::NamedNode(iri("x")),
                    GraphName::NamedNode(iri("g")),
                )],
            },
            GraphUpdateOperation::Drop { silent: false, graph: GraphTarget::NamedNode(iri("h")) },
        ],
    );
    match result {
        Err(error @ EvaluationError::GraphDoesNotExist { .. }) => {
            assert_eq!(error.message(), "The graph <http://example.com/h> does not exists")
        }
        other => panic!("unexpected outcome {:?}", other),
    }
    assert!(storage.reader().is_empty());
    assert!(storage.reader().list_named_graphs().is_empty());
    // the graph that the data names is known once the data is added, and can be dropped
    let result = update(
        &mut storage,
        vec![
            GraphUpdateOperation::InsertData {
                data: vec![Quad::new(
                    Subject::NamedNode(iri("a")),
                    iri("p"),
                    Term::NamedNode(iri("x")),
                    GraphName::NamedNode(iri("g")),
                )],
            },
            GraphUpdateOperation::Drop { silent: false, graph: GraphTarget::NamedNode(iri("g")) },
        ],
    );
    assert!(result.is_ok());
    assert!(storage.reader().is_empty());
    assert!(storage.reader().list_named_graphs().is_empty());
}

#[test]
fn the_variables_of_a_query_come_in_the_order_of_the_pattern() {
    let storage = Storage::new();
    let (variables, solutions) = select(
        &storage,
        GraphPattern::Union {
            left: Box::new(bgp(vec![
                tp(variable("s"), "p", variable("o")),
                tp(variable("o"), "q", variable("x")),
            ])),
            right: Box::new(GraphPattern::Graph {
                name: NamedNodePattern::Variable(var("g")),
                inner: Box::new(bgp(vec![tp(variable("x"), "p", variable("y"))])),
            }),
        },
    );
    assert!(solutions.is_empty());
    assert_eq!(names(&variables), vec![var("s"), var("o"), var("x"), var("g"), var("y")]);
}

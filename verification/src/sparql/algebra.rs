//! The algebra of queries and updates: what a parser of the query language
//! hands over.

use crate::model::blank_node::{BlankNode, BlankNodeView};
use crate::model::literal::{Literal, LiteralView};
use crate::model::named_node::NamedNode;
use crate::model::triple::{GraphName, Quad, Triple};
use vstd::prelude::*;

verus! {

/// A variable of a query.
#[derive(Clone, Debug, PartialEq, Eq, Hash)]
pub struct Variable {
    pub name: String,
}

impl View for Variable {
    type V = Seq<char>;

    open spec fn view(&self) -> Seq<char> {
        self.name@
    }
}

impl Variable {
    pub fn new(name: String) -> (r: Self)
        ensures
            r@ == name@,
    {
        Self { name }
    }

    /// Whether two variables have the same name.
    pub fn same(&self, other: &Self) -> (r: bool)
        ensures
            r == (self@ == other@),
    {
        self.name == other.name
    }

    /// A copy of the variable.
    pub fn duplicate(&self) -> (r: Self)
        ensures
            r@ == self@,
    {
        Self { name: self.name.clone() }
    }
}

/// What the names of some variables are, one for one.
pub open spec fn variable_names(variables: Seq<Variable>) -> Seq<Seq<char>> {
    Seq::new(variables.len(), |i: int| variables[i]@)
}

/// A term of a template or of a pattern: a term, or a variable.
#[derive(Debug)]
pub enum TermPattern {
    NamedNode(NamedNode),
    BlankNode(BlankNode),
    Literal(Literal),
    Triple(Box<TriplePattern>),
    Variable(Variable),
}

/// An IRI of a template or of a pattern, or a variable.
#[derive(Debug)]
pub enum NamedNodePattern {
    NamedNode(NamedNode),
    Variable(Variable),
}

/// The graph of a template or of a pattern: a named graph, the default
/// graph, or a variable.
#[derive(Debug)]
pub enum GraphNamePattern {
    NamedNode(NamedNode),
    DefaultGraph,
    Variable(Variable),
}

/// A triple of a template or of a pattern.
#[derive(Debug)]
pub struct TriplePattern {
    pub subject: TermPattern,
    pub predicate: NamedNodePattern,
    pub object: TermPattern,
}

/// A quad of a template.
#[derive(Debug)]
pub struct QuadPattern {
    pub subject: TermPattern,
    pub predicate: NamedNodePattern,
    pub object: TermPattern,
    pub graph_name: GraphNamePattern,
}

/// What a term of a template is.
pub enum TermPatternView {
    NamedNode(Seq<char>),
    BlankNode(BlankNodeView),
    Literal(LiteralView),
    Triple(Box<TriplePatternView>),
    Variable(Seq<char>),
}

/// What an IRI of a template is.
pub enum NamedNodePatternView {
    NamedNode(Seq<char>),
    Variable(Seq<char>),
}

/// What the graph of a template is.
pub enum GraphNamePatternView {
    NamedNode(Seq<char>),
    DefaultGraph,
    Variable(Seq<char>),
}

/// What a triple of a template is.
pub struct TriplePatternView {
    pub subject: TermPatternView,
    pub predicate: NamedNodePatternView,
    pub object: TermPatternView,
}

/// What a quad of a template is.
pub struct QuadPatternView {
    pub subject: TermPatternView,
    pub predicate: NamedNodePatternView,
    pub object: TermPatternView,
    pub graph_name: GraphNamePatternView,
}

pub open spec fn term_pattern_view(term: TermPattern) -> TermPatternView
    decreases term,
{
    match term {
        TermPattern::NamedNode(node) => TermPatternView::NamedNode(node@),
        TermPattern::BlankNode(node) => TermPatternView::BlankNode(node@),
        TermPattern::Literal(literal) => TermPatternView::Literal(literal@),
        TermPattern::Triple(triple) => TermPatternView::Triple(
            Box::new(triple_pattern_view(*triple)),
        ),
        TermPattern::Variable(variable) => TermPatternView::Variable(variable@),
    }
}

pub open spec fn triple_pattern_view(triple: TriplePattern) -> TriplePatternView
    decreases triple,
{
    TriplePatternView {
        subject: term_pattern_view(triple.subject),
        predicate: triple.predicate@,
        object: term_pattern_view(triple.object),
    }
}

impl View for TermPattern {
    type V = TermPatternView;

    open spec fn view(&self) -> TermPatternView {
        term_pattern_view(*self)
    }
}

impl View for NamedNodePattern {
    type V = NamedNodePatternView;

    open spec fn view(&self) -> NamedNodePatternView {
        match *self {
            NamedNodePattern::NamedNode(node) => NamedNodePatternView::NamedNode(node@),
            NamedNodePattern::Variable(variable) => NamedNodePatternView::Variable(variable@),
        }
    }
}

impl View for GraphNamePattern {
    type V = GraphNamePatternView;

    open spec fn view(&self) -> GraphNamePatternView {
        match *self {
            GraphNamePattern::NamedNode(node) => GraphNamePatternView::NamedNode(node@),
            GraphNamePattern::DefaultGraph => GraphNamePatternView::DefaultGraph,
            GraphNamePattern::Variable(variable) => GraphNamePatternView::Variable(variable@),
        }
    }
}

impl View for TriplePattern {
    type V = TriplePatternView;

    open spec fn view(&self) -> TriplePatternView {
        triple_pattern_view(*self)
    }
}

impl View for QuadPattern {
    type V = QuadPatternView;

    open spec fn view(&self) -> QuadPatternView {
        QuadPatternView {
            subject: self.subject@,
            predicate: self.predicate@,
            object: self.object@,
            graph_name: self.graph_name@,
        }
    }
}

/// The graphs that an operation on graphs is about.
#[derive(Debug)]
pub enum GraphTarget {
    NamedNode(NamedNode),
    DefaultGraph,
    NamedGraphs,
    AllGraphs,
}

/// The pattern of a `WHERE` clause.
#[derive(Debug)]
pub enum GraphPattern {
    /// Some triple patterns that all have to match.
    Bgp { patterns: Vec<TriplePattern> },
    /// Two patterns that both have to match.
    Join { left: Box<GraphPattern>, right: Box<GraphPattern> },
    /// A pattern, with what matches another pattern beside it where
    /// something does.
    LeftJoin { left: Box<GraphPattern>, right: Box<GraphPattern> },
    /// Two patterns of which one has to match.
    Union { left: Box<GraphPattern>, right: Box<GraphPattern> },
    /// A pattern to match in a named graph.
    Graph { name: NamedNodePattern, inner: Box<GraphPattern> },
}

/// One operation of an update.
#[derive(Debug)]
pub enum GraphUpdateOperation {
    InsertData { data: Vec<Quad> },
    DeleteData { data: Vec<Quad> },
    DeleteInsert { delete: Vec<QuadPattern>, insert: Vec<QuadPattern>, pattern: GraphPattern },
    Load { silent: bool, source: NamedNode, destination: GraphName },
    Clear { silent: bool, graph: GraphTarget },
    Create { silent: bool, graph: NamedNode },
    Drop { silent: bool, graph: GraphTarget },
}

/// An update: some operations, to be done one after the other.
#[derive(Debug)]
pub struct Update {
    pub operations: Vec<GraphUpdateOperation>,
    pub base_iri: Option<String>,
}

} // verus!

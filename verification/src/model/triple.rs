//! Terms, subjects, triples, graph names and quads.

use crate::model::blank_node::{BlankNode, BlankNodeView};
use crate::model::literal::{Literal, LiteralView};
use crate::model::named_node::NamedNode;
use vstd::prelude::*;

verus! {

/// What a term is.
pub enum TermView {
    NamedNode(Seq<char>),
    BlankNode(BlankNodeView),
    Literal(LiteralView),
    Triple(Box<TripleView>),
}

/// What the subject of a triple is.
pub enum SubjectView {
    NamedNode(Seq<char>),
    BlankNode(BlankNodeView),
    Triple(Box<TripleView>),
}

/// What a triple is.
pub struct TripleView {
    pub subject: SubjectView,
    pub predicate: Seq<char>,
    pub object: TermView,
}

/// What the name of a graph is.
pub enum GraphNameView {
    NamedNode(Seq<char>),
    BlankNode(BlankNodeView),
    DefaultGraph,
}

/// What a quad is.
pub struct QuadView {
    pub subject: SubjectView,
    pub predicate: Seq<char>,
    pub object: TermView,
    pub graph_name: GraphNameView,
}

impl SubjectView {
    /// The subject as a term.
    pub open spec fn to_term(self) -> TermView {
        match self {
            SubjectView::NamedNode(iri) => TermView::NamedNode(iri),
            SubjectView::BlankNode(node) => TermView::BlankNode(node),
            SubjectView::Triple(triple) => TermView::Triple(triple),
        }
    }
}

/// Every blank node and every literal in the term is well formed.
pub open spec fn term_wf(term: TermView) -> bool
    decreases term,
{
    match term {
        TermView::BlankNode(node) => node.wf(),
        TermView::Literal(literal) => literal.wf(),
        TermView::Triple(triple) => triple_wf(*triple),
        _ => true,
    }
}

/// Every blank node and every literal in the subject is well formed.
pub open spec fn subject_wf(subject: SubjectView) -> bool
    decreases subject,
{
    match subject {
        SubjectView::BlankNode(node) => node.wf(),
        SubjectView::Triple(triple) => triple_wf(*triple),
        _ => true,
    }
}

/// Every blank node and every literal in the triple is well formed.
pub open spec fn triple_wf(triple: TripleView) -> bool
    decreases triple,
{
    subject_wf(triple.subject) && term_wf(triple.object)
}

impl TermView {
    pub open spec fn wf(self) -> bool {
        term_wf(self)
    }
}

impl SubjectView {
    pub open spec fn wf(self) -> bool {
        subject_wf(self)
    }
}

impl TripleView {
    pub open spec fn wf(self) -> bool {
        triple_wf(self)
    }

    /// The quad that holds the triple in a graph.
    pub open spec fn in_graph(self, graph_name: GraphNameView) -> QuadView {
        QuadView {
            subject: self.subject,
            predicate: self.predicate,
            object: self.object,
            graph_name,
        }
    }
}

impl GraphNameView {
    pub open spec fn wf(self) -> bool {
        match self {
            GraphNameView::BlankNode(node) => node.wf(),
            _ => true,
        }
    }
}

impl QuadView {
    pub open spec fn wf(self) -> bool {
        subject_wf(self.subject) && term_wf(self.object) && self.graph_name.wf()
    }

    /// The triple of the quad.
    pub open spec fn triple(self) -> TripleView {
        TripleView { subject: self.subject, predicate: self.predicate, object: self.object }
    }
}

/// A term: an IRI, a blank node, a literal or a quoted triple.
#[derive(Debug, PartialEq, Eq, Hash)]
pub enum Term {
    NamedNode(NamedNode),
    BlankNode(BlankNode),
    Literal(Literal),
    Triple(Box<Triple>),
}

/// The subject of a triple: an IRI, a blank node or a quoted triple.
#[derive(Debug, PartialEq, Eq, Hash)]
pub enum Subject {
    NamedNode(NamedNode),
    BlankNode(BlankNode),
    Triple(Box<Triple>),
}

/// A triple.
#[derive(Debug, PartialEq, Eq, Hash)]
pub struct Triple {
    pub subject: Subject,
    pub predicate: NamedNode,
    pub object: Term,
}

/// The name of a graph: an IRI, a blank node or the default graph.
#[derive(Clone, Debug, PartialEq, Eq, Hash)]
pub enum GraphName {
    NamedNode(NamedNode),
    BlankNode(BlankNode),
    DefaultGraph,
}

/// A quad: a triple in a graph.
#[derive(Clone, Debug, PartialEq, Eq, Hash)]
pub struct Quad {
    pub subject: Subject,
    pub predicate: NamedNode,
    pub object: Term,
    pub graph_name: GraphName,
}

pub open spec fn term_view(term: Term) -> TermView
    decreases term,
{
    match term {
        Term::NamedNode(node) => TermView::NamedNode(node@),
        Term::BlankNode(node) => TermView::BlankNode(node@),
        Term::Literal(literal) => TermView::Literal(literal@),
        Term::Triple(triple) => TermView::Triple(Box::new(triple_view(*triple))),
    }
}

pub open spec fn subject_view(subject: Subject) -> SubjectView
    decreases subject,
{
    match subject {
        Subject::NamedNode(node) => SubjectView::NamedNode(node@),
        Subject::BlankNode(node) => SubjectView::BlankNode(node@),
        Subject::Triple(triple) => SubjectView::Triple(Box::new(triple_view(*triple))),
    }
}

pub open spec fn triple_view(triple: Triple) -> TripleView
    decreases triple,
{
    TripleView {
        subject: subject_view(triple.subject),
        predicate: triple.predicate@,
        object: term_view(triple.object),
    }
}

impl Clone for Term {
    fn clone(&self) -> (r: Self)
        ensures
            r@ == self@,
    {
        self.duplicate()
    }
}

impl Clone for Subject {
    fn clone(&self) -> (r: Self)
        ensures
            r@ == self@,
    {
        self.duplicate()
    }
}

impl Clone for Triple {
    fn clone(&self) -> (r: Self)
        ensures
            r@ == self@,
    {
        self.duplicate()
    }
}

impl View for Term {
    type V = TermView;

    open spec fn view(&self) -> TermView {
        term_view(*self)
    }
}

impl View for Subject {
    type V = SubjectView;

    open spec fn view(&self) -> SubjectView {
        subject_view(*self)
    }
}

impl View for Triple {
    type V = TripleView;

    open spec fn view(&self) -> TripleView {
        triple_view(*self)
    }
}

impl View for GraphName {
    type V = GraphNameView;

    open spec fn view(&self) -> GraphNameView {
        match *self {
            GraphName::NamedNode(node) => GraphNameView::NamedNode(node@),
            GraphName::BlankNode(node) => GraphNameView::BlankNode(node@),
            GraphName::DefaultGraph => GraphNameView::DefaultGraph,
        }
    }
}

impl View for Quad {
    type V = QuadView;

    open spec fn view(&self) -> QuadView {
        QuadView {
            subject: self.subject@,
            predicate: self.predicate@,
            object: self.object@,
            graph_name: self.graph_name@,
        }
    }
}

impl Term {
    /// A copy of the term.
    pub fn duplicate(&self) -> (r: Self)
        ensures
            r@ == self@,
        decreases *self,
    {
        match self {
            Term::NamedNode(node) => Term::NamedNode(node.duplicate()),
            Term::BlankNode(node) => Term::BlankNode(node.duplicate()),
            Term::Literal(literal) => Term::Literal(literal.duplicate()),
            Term::Triple(triple) => Term::Triple(Box::new(triple.duplicate())),
        }
    }

    /// Whether two terms are the same.
    pub fn same(&self, other: &Self) -> (r: bool)
        ensures
            r == (self@ == other@),
        decreases *self,
    {
        match (self, other) {
            (Term::NamedNode(a), Term::NamedNode(b)) => a.same(b),
            (Term::BlankNode(a), Term::BlankNode(b)) => a.same(b),
            (Term::Literal(a), Term::Literal(b)) => a.same(b),
            (Term::Triple(a), Term::Triple(b)) => a.same(b),
            _ => false,
        }
    }

    pub fn is_named_node(&self) -> (r: bool)
        ensures
            r == (self@ is NamedNode),
    {
        matches!(self, Term::NamedNode(_))
    }

    pub fn is_blank_node(&self) -> (r: bool)
        ensures
            r == (self@ is BlankNode),
    {
        matches!(self, Term::BlankNode(_))
    }

    pub fn is_literal(&self) -> (r: bool)
        ensures
            r == (self@ is Literal),
    {
        matches!(self, Term::Literal(_))
    }

    pub fn is_triple(&self) -> (r: bool)
        ensures
            r == (self@ is Triple),
    {
        matches!(self, Term::Triple(_))
    }
}

impl Subject {
    /// A copy of the subject.
    pub fn duplicate(&self) -> (r: Self)
        ensures
            r@ == self@,
        decreases *self,
    {
        match self {
            Subject::NamedNode(node) => Subject::NamedNode(node.duplicate()),
            Subject::BlankNode(node) => Subject::BlankNode(node.duplicate()),
            Subject::Triple(triple) => Subject::Triple(Box::new(triple.duplicate())),
        }
    }

    /// Whether two subjects are the same.
    pub fn same(&self, other: &Self) -> (r: bool)
        ensures
            r == (self@ == other@),
        decreases *self,
    {
        match (self, other) {
            (Subject::NamedNode(a), Subject::NamedNode(b)) => a.same(b),
            (Subject::BlankNode(a), Subject::BlankNode(b)) => a.same(b),
            (Subject::Triple(a), Subject::Triple(b)) => a.same(b),
            _ => false,
        }
    }

    /// The subject as a term.
    pub fn into_term(self) -> (r: Term)
        ensures
            r@ == self@.to_term(),
    {
        match self {
            Subject::NamedNode(node) => Term::NamedNode(node),
            Subject::BlankNode(node) => Term::BlankNode(node),
            Subject::Triple(triple) => Term::Triple(triple),
        }
    }
}

impl Triple {
    pub fn new(subject: Subject, predicate: NamedNode, object: Term) -> (r: Self)
        ensures
            r.subject == subject,
            r.predicate == predicate,
            r.object == object,
    {
        Self { subject, predicate, object }
    }

    /// A copy of the triple.
    pub fn duplicate(&self) -> (r: Self)
        ensures
            r@ == self@,
        decreases *self,
    {
        Self {
            subject: self.subject.duplicate(),
            predicate: self.predicate.duplicate(),
            object: self.object.duplicate(),
        }
    }

    /// Whether two triples are the same.
    pub fn same(&self, other: &Self) -> (r: bool)
        ensures
            r == (self@ == other@),
        decreases *self,
    {
        self.subject.same(&other.subject) && self.predicate.same(&other.predicate)
            && self.object.same(&other.object)
    }

    /// The quad that holds the triple in a graph.
    pub fn in_graph(self, graph_name: GraphName) -> (r: Quad)
        ensures
            r@ == self@.in_graph(graph_name@),
    {
        Quad {
            subject: self.subject,
            predicate: self.predicate,
            object: self.object,
            graph_name,
        }
    }
}

impl GraphName {
    /// A copy of the name.
    pub fn duplicate(&self) -> (r: Self)
        ensures
            r@ == self@,
    {
        match self {
            GraphName::NamedNode(node) => GraphName::NamedNode(node.duplicate()),
            GraphName::BlankNode(node) => GraphName::BlankNode(node.duplicate()),
            GraphName::DefaultGraph => GraphName::DefaultGraph,
        }
    }

    /// Whether two names are the same.
    pub fn same(&self, other: &Self) -> (r: bool)
        ensures
            r == (self@ == other@),
    {
        match (self, other) {
            (GraphName::NamedNode(a), GraphName::NamedNode(b)) => a.same(b),
            (GraphName::BlankNode(a), GraphName::BlankNode(b)) => a.same(b),
            (GraphName::DefaultGraph, GraphName::DefaultGraph) => true,
            _ => false,
        }
    }

    pub fn is_default_graph(&self) -> (r: bool)
        ensures
            r == (self@ is DefaultGraph),
    {
        matches!(self, GraphName::DefaultGraph)
    }
}

impl Quad {
    pub fn new(subject: Subject, predicate: NamedNode, object: Term, graph_name: GraphName) -> (r:
        Self)
        ensures
            r.subject == subject,
            r.predicate == predicate,
            r.object == object,
            r.graph_name == graph_name,
    {
        Self { subject, predicate, object, graph_name }
    }

    /// A copy of the quad.
    pub fn duplicate(&self) -> (r: Self)
        ensures
            r@ == self@,
    {
        Self {
            subject: self.subject.duplicate(),
            predicate: self.predicate.duplicate(),
            object: self.object.duplicate(),
            graph_name: self.graph_name.duplicate(),
        }
    }

    /// Whether two quads are the same.
    pub fn same(&self, other: &Self) -> (r: bool)
        ensures
            r == (self@ == other@),
    {
        self.subject.same(&other.subject) && self.predicate.same(&other.predicate)
            && self.object.same(&other.object) && self.graph_name.same(&other.graph_name)
    }
}

} // verus!

//! The plan of a pattern: its nodes, and the tuples that flow through them.

use crate::storage::index::QuadPattern;
use crate::storage::numeric_encoder::{EncodedQuad, EncodedTerm};
use vstd::prelude::*;

verus! {

/// What a tuple binds: a term for some of the slots.
pub type Bindings = Map<int, EncodedTerm>;

/// A solution in the making: for each slot of a variable, the term that
/// the variable is bound to, or none.
#[derive(Debug)]
pub struct EncodedTuple {
    inner: Vec<Option<EncodedTerm>>,
}

/// The bindings of a sequence of slots.
pub open spec fn bindings_of(slots: Seq<Option<EncodedTerm>>) -> Bindings {
    Map::new(|i: int| 0 <= i < slots.len() && slots[i] is Some, |i: int| slots[i]->Some_0)
}

impl View for EncodedTuple {
    type V = Bindings;

    closed spec fn view(&self) -> Bindings {
        bindings_of(self.inner@)
    }
}

/// What some tuples bind, one for one.
pub open spec fn tuple_views(tuples: Seq<EncodedTuple>) -> Seq<Bindings> {
    Seq::new(tuples.len(), |i: int| tuples[i]@)
}

impl EncodedTuple {
    /// A tuple that binds nothing.
    pub fn with_capacity(capacity: usize) -> (r: Self)
        ensures
            r@ == Map::<int, EncodedTerm>::empty(),
    {
        let r = Self { inner: Vec::with_capacity(capacity) };
        proof {
            assert(r@ =~= Map::<int, EncodedTerm>::empty());
        }
        r
    }

    /// Whether the tuple binds a slot.
    pub fn contains(&self, index: usize) -> (r: bool)
        ensures
            r == self@.contains_key(index as int),
    {
        index < self.inner.len() && self.inner[index].is_some()
    }

    /// The term that a slot is bound to, if it is bound.
    pub fn get(&self, index: usize) -> (r: Option<&EncodedTerm>)
        ensures
            r is Some <==> self@.contains_key(index as int),
            r matches Some(term) ==> *term == self@[index as int],
    {
        if index < self.inner.len() {
            self.inner[index].as_ref()
        } else {
            None
        }
    }

    /// Binds a slot to a term.
    pub fn set(&mut self, index: usize, value: EncodedTerm)
        ensures
            final(self)@ == old(self)@.insert(index as int, value),
    {
        while self.inner.len() <= index
            invariant
                self@ == old(self)@,
            decreases index + 1 - self.inner@.len(),
        {
            let ghost before = self.inner@;
            self.inner.push(None);
            proof {
                assert(bindings_of(self.inner@) =~= bindings_of(before));
            }
        }
        let ghost before = self.inner@;
        self.inner[index] = Some(value);
        proof {
            assert(self.inner@ == before.update(index as int, Some(value)));
            assert(bindings_of(self.inner@) =~= bindings_of(before).insert(index as int, value));
        }
    }

    /// A copy of the tuple.
    pub fn duplicate(&self) -> (r: Self)
        ensures
            r@ == self@,
    {
        let mut inner: Vec<Option<EncodedTerm>> = Vec::new();
        let mut i: usize = 0;
        while i < self.inner.len()
            invariant
                i <= self.inner@.len(),
                inner@ == self.inner@.take(i as int),
            decreases self.inner@.len() - i,
        {
            let slot = match &self.inner[i] {
                Some(term) => Some(term.duplicate()),
                None => None,
            };
            inner.push(slot);
            proof {
                assert(inner@ =~= self.inner@.take(i as int + 1));
            }
            i += 1;
        }
        proof {
            assert(self.inner@.take(self.inner@.len() as int) =~= self.inner@);
        }
        Self { inner }
    }
}

/// A place of a quad pattern in a plan: a term, or the slot of a variable.
#[derive(Debug)]
pub enum PatternValue {
    Constant(EncodedTerm),
    Variable(usize),
}

/// A node of a plan.
#[derive(Debug)]
pub enum PlanNode {
    /// Gives the tuple that it gets.
    Init,
    /// For each tuple of its child, gives the tuple bound further by each
    /// quad of the store that the pattern matches.
    QuadPattern {
        child: Box<PlanNode>,
        subject: PatternValue,
        predicate: PatternValue,
        object: PatternValue,
        graph_name: PatternValue,
    },
    /// Gives, for each tuple of its left child, the tuples of its right
    /// child on that tuple.
    Join { left: Box<PlanNode>, right: Box<PlanNode> },
    /// Gives, for each tuple of its left child, the tuples of its right
    /// child on that tuple, or the tuple itself where there is none.
    LeftJoin { left: Box<PlanNode>, right: Box<PlanNode> },
    /// Gives the tuples of both of its children.
    Union { left: Box<PlanNode>, right: Box<PlanNode> },
}

impl PatternValue {
    /// The term that has to stand at the place for a tuple, if one has to.
    pub open spec fn term_for(self, tuple: Bindings) -> Option<EncodedTerm> {
        match self {
            PatternValue::Constant(term) => Some(term),
            PatternValue::Variable(slot) => if tuple.contains_key(slot as int) {
                Some(tuple[slot as int])
            } else {
                None
            },
        }
    }

    /// The tuple once the place has taken a term of a quad: bound
    /// further where the place is a variable that was free, and none where
    /// it is a variable that is bound to another term.
    pub open spec fn bound_with(self, term: EncodedTerm, tuple: Bindings) -> Option<Bindings> {
        match self {
            PatternValue::Constant(_) => Some(tuple),
            PatternValue::Variable(slot) => if tuple.contains_key(slot as int) {
                if tuple[slot as int] == term {
                    Some(tuple)
                } else {
                    None
                }
            } else {
                Some(tuple.insert(slot as int, term))
            },
        }
    }

    /// A copy of the place.
    pub fn duplicate(&self) -> (r: Self)
        ensures
            r == *self,
    {
        match self {
            PatternValue::Constant(term) => PatternValue::Constant(term.duplicate()),
            PatternValue::Variable(slot) => PatternValue::Variable(*slot),
        }
    }

    /// The term that has to stand at the place for a tuple, if one has to.
    pub fn term(&self, tuple: &EncodedTuple) -> (r: Option<EncodedTerm>)
        ensures
            r == self.term_for(tuple@),
    {
        match self {
            PatternValue::Constant(term) => Some(term.duplicate()),
            PatternValue::Variable(slot) => match tuple.get(*slot) {
                Some(term) => Some(term.duplicate()),
                None => None,
            },
        }
    }

    /// Binds the place to a term of a quad in a tuple. Gives back whether
    /// the term fits what the tuple has bound.
    pub fn bind(&self, term: &EncodedTerm, tuple: &mut EncodedTuple) -> (r: bool)
        ensures
            r == self.bound_with(*term, old(tuple)@) is Some,
            r ==> Some(final(tuple)@) == self.bound_with(*term, old(tuple)@),
    {
        match self {
            PatternValue::Constant(_) => true,
            PatternValue::Variable(slot) => {
                let fits = match tuple.get(*slot) {
                    Some(bound) => Some(bound.identical(term)),
                    None => None,
                };
                match fits {
                    Some(fits) => fits,
                    None => {
                        tuple.set(*slot, term.duplicate());
                        true
                    },
                }
            },
        }
    }
}

/// The pattern that a node asks the store for, for a tuple.
pub open spec fn store_pattern(
    subject: PatternValue,
    predicate: PatternValue,
    object: PatternValue,
    graph_name: PatternValue,
    tuple: Bindings,
) -> QuadPattern {
    QuadPattern {
        subject: subject.term_for(tuple),
        predicate: predicate.term_for(tuple),
        object: object.term_for(tuple),
        graph_name: graph_name.term_for(tuple),
    }
}

/// The tuple bound further by a quad: place by place, subject first. None
/// where a variable that stands at two places would take two terms.
pub open spec fn bound_by_quad(
    subject: PatternValue,
    predicate: PatternValue,
    object: PatternValue,
    graph_name: PatternValue,
    quad: EncodedQuad,
    tuple: Bindings,
) -> Option<Bindings> {
    match subject.bound_with(quad.subject, tuple) {
        None => None,
        Some(first) => match predicate.bound_with(quad.predicate, first) {
            None => None,
            Some(second) => match object.bound_with(quad.object, second) {
                None => None,
                Some(third) => graph_name.bound_with(quad.graph_name, third),
            },
        },
    }
}

/// Whether a quad is in a graph that the pattern may look into: a pattern
/// whose graph is a variable looks into the named graphs only.
pub open spec fn graph_is_visible(graph_name: PatternValue, quad: EncodedQuad) -> bool {
    graph_name is Variable ==> quad.graph_name != EncodedTerm::DefaultGraph
}

/// The tuples that a quad pattern gives for one tuple: the tuple bound
/// further by each quad of the store that the pattern matches.
pub open spec fn pattern_solutions(
    subject: PatternValue,
    predicate: PatternValue,
    object: PatternValue,
    graph_name: PatternValue,
    quads: Set<EncodedQuad>,
    from: Bindings,
) -> Set<Bindings> {
    Set::new(
        |tuple: Bindings|
            exists|quad: EncodedQuad|
                #![trigger quads.contains(quad)]
                quads.contains(quad) && graph_is_visible(graph_name, quad) && store_pattern(
                    subject,
                    predicate,
                    object,
                    graph_name,
                    from,
                ).matches(quad) && bound_by_quad(subject, predicate, object, graph_name, quad, from)
                    == Some(tuple),
    )
}

/// The tuples of an optional part for one tuple: those of the part, or the
/// tuple itself where the part gives none.
pub open spec fn optional_solutions(part: Set<Bindings>, from: Bindings) -> Set<Bindings> {
    if part == Set::<Bindings>::empty() {
        set![from]
    } else {
        part
    }
}

/// The tuples that a node gives for a tuple, over the quads of a store.
pub open spec fn solutions(node: PlanNode, quads: Set<EncodedQuad>, from: Bindings) -> Set<
    Bindings,
>
    decreases node,
{
    match node {
        PlanNode::Init => set![from],
        PlanNode::QuadPattern { child, subject, predicate, object, graph_name } => Set::new(
            |tuple: Bindings|
                exists|middle: Bindings|
                    #![trigger solutions(*child, quads, from).contains(middle)]
                    solutions(*child, quads, from).contains(middle) && pattern_solutions(
                        subject,
                        predicate,
                        object,
                        graph_name,
                        quads,
                        middle,
                    ).contains(tuple),
        ),
        PlanNode::Join { left, right } => Set::new(
            |tuple: Bindings|
                exists|middle: Bindings|
                    #![trigger solutions(*left, quads, from).contains(middle)]
                    solutions(*left, quads, from).contains(middle) && solutions(
                        *right,
                        quads,
                        middle,
                    ).contains(tuple),
        ),
        PlanNode::LeftJoin { left, right } => Set::new(
            |tuple: Bindings|
                exists|middle: Bindings|
                    #![trigger solutions(*left, quads, from).contains(middle)]
                    solutions(*left, quads, from).contains(middle) && optional_solutions(
                        solutions(*right, quads, middle),
                        middle,
                    ).contains(tuple),
        ),
        PlanNode::Union { left, right } => solutions(*left, quads, from).union(
            solutions(*right, quads, from),
        ),
    }
}

/// The terms that a pattern can bind a variable to: the subjects, the
/// predicates and the objects of the quads, and their graphs but for the
/// default graph.
pub open spec fn quad_terms(quads: Set<EncodedQuad>) -> Set<EncodedTerm> {
    Set::new(
        |term: EncodedTerm|
            exists|quad: EncodedQuad|
                #![trigger quads.contains(quad)]
                quads.contains(quad) && (quad.subject == term || quad.predicate == term
                    || quad.object == term || (quad.graph_name == term && term
                    != EncodedTerm::DefaultGraph)),
    )
}

/// Whether a tuple binds its slots to terms of a set only.
pub open spec fn binds_within(tuple: Bindings, terms: Set<EncodedTerm>) -> bool {
    forall|slot: int| tuple.contains_key(slot) ==> terms.contains(#[trigger] tuple[slot])
}

proof fn lemma_bound_within(
    place: PatternValue,
    term: EncodedTerm,
    tuple: Bindings,
    terms: Set<EncodedTerm>,
)
    requires
        binds_within(tuple, terms),
        place is Variable ==> terms.contains(term),
    ensures
        place.bound_with(term, tuple) matches Some(bound) ==> binds_within(bound, terms),
{
}

/// A quad pattern binds variables to terms of the quads only.
proof fn lemma_pattern_binds_stored(
    subject: PatternValue,
    predicate: PatternValue,
    object: PatternValue,
    graph_name: PatternValue,
    quads: Set<EncodedQuad>,
    from: Bindings,
    tuple: Bindings,
)
    requires
        binds_within(from, quad_terms(quads)),
        pattern_solutions(subject, predicate, object, graph_name, quads, from).contains(tuple),
    ensures
        binds_within(tuple, quad_terms(quads)),
{
    let terms = quad_terms(quads);
    let quad = choose|quad: EncodedQuad|
        #![trigger quads.contains(quad)]
        quads.contains(quad) && graph_is_visible(graph_name, quad) && store_pattern(
            subject,
            predicate,
            object,
            graph_name,
            from,
        ).matches(quad) && bound_by_quad(subject, predicate, object, graph_name, quad, from)
            == Some(tuple);
    assert(quads.contains(quad));
    assert(terms.contains(quad.subject));
    assert(terms.contains(quad.predicate));
    assert(terms.contains(quad.object));
    lemma_bound_within(subject, quad.subject, from, terms);
    let first = subject.bound_with(quad.subject, from)->Some_0;
    lemma_bound_within(predicate, quad.predicate, first, terms);
    let second = predicate.bound_with(quad.predicate, first)->Some_0;
    lemma_bound_within(object, quad.object, second, terms);
    let third = object.bound_with(quad.object, second)->Some_0;
    lemma_bound_within(graph_name, quad.graph_name, third, terms);
}

/// The tuples of a plan bind variables to terms of the quads only, where
/// the tuple from which they start does.
pub proof fn lemma_solutions_bind_stored(
    node: PlanNode,
    quads: Set<EncodedQuad>,
    from: Bindings,
    tuple: Bindings,
)
    requires
        binds_within(from, quad_terms(quads)),
        solutions(node, quads, from).contains(tuple),
    ensures
        binds_within(tuple, quad_terms(quads)),
    decreases node,
{
    match node {
        PlanNode::Init => {},
        PlanNode::QuadPattern { child, subject, predicate, object, graph_name } => {
            let middle = choose|middle: Bindings|
                #![trigger solutions(*child, quads, from).contains(middle)]
                solutions(*child, quads, from).contains(middle) && pattern_solutions(
                    subject,
                    predicate,
                    object,
                    graph_name,
                    quads,
                    middle,
                ).contains(tuple);
            lemma_solutions_bind_stored(*child, quads, from, middle);
            lemma_pattern_binds_stored(
                subject,
                predicate,
                object,
                graph_name,
                quads,
                middle,
                tuple,
            );
        },
        PlanNode::Join { left, right } => {
            let middle = choose|middle: Bindings|
                #![trigger solutions(*left, quads, from).contains(middle)]
                solutions(*left, quads, from).contains(middle) && solutions(
                    *right,
                    quads,
                    middle,
                ).contains(tuple);
            lemma_solutions_bind_stored(*left, quads, from, middle);
            lemma_solutions_bind_stored(*right, quads, middle, tuple);
        },
        PlanNode::LeftJoin { left, right } => {
            let middle = choose|middle: Bindings|
                #![trigger solutions(*left, quads, from).contains(middle)]
                solutions(*left, quads, from).contains(middle) && optional_solutions(
                    solutions(*right, quads, middle),
                    middle,
                ).contains(tuple);
            lemma_solutions_bind_stored(*left, quads, from, middle);
            if solutions(*right, quads, middle) != Set::<Bindings>::empty() {
                lemma_solutions_bind_stored(*right, quads, middle, tuple);
            }
        },
        PlanNode::Union { left, right } => {
            if solutions(*left, quads, from).contains(tuple) {
                lemma_solutions_bind_stored(*left, quads, from, tuple);
            } else {
                lemma_solutions_bind_stored(*right, quads, from, tuple);
            }
        },
    }
}

} // verus!

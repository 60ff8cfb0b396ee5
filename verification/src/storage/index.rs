//! The orders in which the indexes keep the terms of a quad, and the choice
//! of the index that serves a pattern.

use crate::storage::numeric_encoder::{EncodedQuad, EncodedTerm};
use vstd::prelude::*;

verus! {

/// One of the four places of a quad.
#[derive(Clone, Copy, Debug, PartialEq, Eq, Structural)]
pub enum Position {
    Subject,
    Predicate,
    Object,
    Graph,
}

/// The order in which an index keeps the terms of a quad.
#[derive(Clone, Copy, Debug, PartialEq, Eq, Structural)]
pub enum IndexOrder {
    Spog,
    Posg,
    Ospg,
    Gspo,
    Gpos,
    Gosp,
}

/// One of the nine indexes: three for the default graph, whose keys end in
/// the default graph, and six for the named graphs.
#[derive(Clone, Copy, Debug, PartialEq, Eq, Structural)]
pub enum QuadIndex {
    Dspo,
    Dpos,
    Dosp,
    Spog,
    Posg,
    Ospg,
    Gspo,
    Gpos,
    Gosp,
}

/// The key of a quad in an index: its four terms in the order of the index.
#[derive(Debug)]
pub struct IndexKey {
    pub first: EncodedTerm,
    pub second: EncodedTerm,
    pub third: EncodedTerm,
    pub fourth: EncodedTerm,
}

/// A pattern: for each place of a quad, the term that has to stand there,
/// or none where any term may.
pub struct QuadPattern {
    pub subject: Option<EncodedTerm>,
    pub predicate: Option<EncodedTerm>,
    pub object: Option<EncodedTerm>,
    pub graph_name: Option<EncodedTerm>,
}

impl IndexOrder {
    /// The place of a quad whose term stands at a place of the key.
    pub open spec fn position(self, at: int) -> Position {
        match self {
            IndexOrder::Spog => if at == 0 {
                Position::Subject
            } else if at == 1 {
                Position::Predicate
            } else if at == 2 {
                Position::Object
            } else {
                Position::Graph
            },
            IndexOrder::Posg => if at == 0 {
                Position::Predicate
            } else if at == 1 {
                Position::Object
            } else if at == 2 {
                Position::Subject
            } else {
                Position::Graph
            },
            IndexOrder::Ospg => if at == 0 {
                Position::Object
            } else if at == 1 {
                Position::Subject
            } else if at == 2 {
                Position::Predicate
            } else {
                Position::Graph
            },
            IndexOrder::Gspo => if at == 0 {
                Position::Graph
            } else if at == 1 {
                Position::Subject
            } else if at == 2 {
                Position::Predicate
            } else {
                Position::Object
            },
            IndexOrder::Gpos => if at == 0 {
                Position::Graph
            } else if at == 1 {
                Position::Predicate
            } else if at == 2 {
                Position::Object
            } else {
                Position::Subject
            },
            IndexOrder::Gosp => if at == 0 {
                Position::Graph
            } else if at == 1 {
                Position::Object
            } else if at == 2 {
                Position::Subject
            } else {
                Position::Predicate
            },
        }
    }

    /// The place of a quad whose term stands at a place of the key.
    pub fn position_at(self, at: usize) -> (r: Position)
        ensures
            r == self.position(at as int),
    {
        match self {
            IndexOrder::Spog => if at == 0 {
                Position::Subject
            } else if at == 1 {
                Position::Predicate
            } else if at == 2 {
                Position::Object
            } else {
                Position::Graph
            },
            IndexOrder::Posg => if at == 0 {
                Position::Predicate
            } else if at == 1 {
                Position::Object
            } else if at == 2 {
                Position::Subject
            } else {
                Position::Graph
            },
            IndexOrder::Ospg => if at == 0 {
                Position::Object
            } else if at == 1 {
                Position::Subject
            } else if at == 2 {
                Position::Predicate
            } else {
                Position::Graph
            },
            IndexOrder::Gspo => if at == 0 {
                Position::Graph
            } else if at == 1 {
                Position::Subject
            } else if at == 2 {
                Position::Predicate
            } else {
                Position::Object
            },
            IndexOrder::Gpos => if at == 0 {
                Position::Graph
            } else if at == 1 {
                Position::Predicate
            } else if at == 2 {
                Position::Object
            } else {
                Position::Subject
            },
            IndexOrder::Gosp => if at == 0 {
                Position::Graph
            } else if at == 1 {
                Position::Object
            } else if at == 2 {
                Position::Subject
            } else {
                Position::Predicate
            },
        }
    }
}

impl QuadIndex {
    /// The order of the keys of the index.
    pub open spec fn order(self) -> IndexOrder {
        match self {
            QuadIndex::Dspo => IndexOrder::Spog,
            QuadIndex::Dpos => IndexOrder::Posg,
            QuadIndex::Dosp => IndexOrder::Ospg,
            QuadIndex::Spog => IndexOrder::Spog,
            QuadIndex::Posg => IndexOrder::Posg,
            QuadIndex::Ospg => IndexOrder::Ospg,
            QuadIndex::Gspo => IndexOrder::Gspo,
            QuadIndex::Gpos => IndexOrder::Gpos,
            QuadIndex::Gosp => IndexOrder::Gosp,
        }
    }

    /// Whether the index holds the quads of the default graph; the others
    /// hold those of the named graphs.
    pub open spec fn holds_default_graph(self) -> bool {
        self == QuadIndex::Dspo || self == QuadIndex::Dpos || self == QuadIndex::Dosp
    }

    /// The order of the keys of the index.
    pub fn key_order(self) -> (r: IndexOrder)
        ensures
            r == self.order(),
    {
        match self {
            QuadIndex::Dspo => IndexOrder::Spog,
            QuadIndex::Dpos => IndexOrder::Posg,
            QuadIndex::Dosp => IndexOrder::Ospg,
            QuadIndex::Spog => IndexOrder::Spog,
            QuadIndex::Posg => IndexOrder::Posg,
            QuadIndex::Ospg => IndexOrder::Ospg,
            QuadIndex::Gspo => IndexOrder::Gspo,
            QuadIndex::Gpos => IndexOrder::Gpos,
            QuadIndex::Gosp => IndexOrder::Gosp,
        }
    }
}

impl EncodedQuad {
    /// The term at a place of the quad.
    pub open spec fn term_at(self, position: Position) -> EncodedTerm {
        match position {
            Position::Subject => self.subject,
            Position::Predicate => self.predicate,
            Position::Object => self.object,
            Position::Graph => self.graph_name,
        }
    }

    /// The term at a place of the quad.
    pub fn term(&self, position: Position) -> (r: &EncodedTerm)
        ensures
            *r == self.term_at(position),
    {
        match position {
            Position::Subject => &self.subject,
            Position::Predicate => &self.predicate,
            Position::Object => &self.object,
            Position::Graph => &self.graph_name,
        }
    }
}

impl QuadPattern {
    /// The term that has to stand at a place, if one has to.
    pub open spec fn term_at(self, position: Position) -> Option<EncodedTerm> {
        match position {
            Position::Subject => self.subject,
            Position::Predicate => self.predicate,
            Position::Object => self.object,
            Position::Graph => self.graph_name,
        }
    }

    /// Whether a quad has, at each place, the term that has to stand
    /// there.
    pub open spec fn matches(self, quad: EncodedQuad) -> bool {
        &&& self.subject matches Some(term) ==> quad.subject == term
        &&& self.predicate matches Some(term) ==> quad.predicate == term
        &&& self.object matches Some(term) ==> quad.object == term
        &&& self.graph_name matches Some(term) ==> quad.graph_name == term
    }

    /// How many places have a term that has to stand there.
    pub open spec fn bound_count(self) -> int {
        (if self.subject is Some {
            1int
        } else {
            0int
        }) + (if self.predicate is Some {
            1int
        } else {
            0int
        }) + (if self.object is Some {
            1int
        } else {
            0int
        }) + (if self.graph_name is Some {
            1int
        } else {
            0int
        })
    }

    /// The pattern that asks for the same terms and for one graph.
    pub open spec fn in_graph(self, graph_name: EncodedTerm) -> QuadPattern {
        QuadPattern {
            subject: self.subject,
            predicate: self.predicate,
            object: self.object,
            graph_name: Some(graph_name),
        }
    }

    /// The term that has to stand at a place, if one has to.
    pub fn term(&self, position: Position) -> (r: Option<&EncodedTerm>)
        ensures
            r is Some <==> self.term_at(position) is Some,
            r matches Some(term) ==> Some(*term) == self.term_at(position),
    {
        match position {
            Position::Subject => self.subject.as_ref(),
            Position::Predicate => self.predicate.as_ref(),
            Position::Object => self.object.as_ref(),
            Position::Graph => self.graph_name.as_ref(),
        }
    }
}

impl IndexKey {
    /// The term at a place of the key.
    pub open spec fn term_at(self, at: int) -> EncodedTerm {
        if at == 0 {
            self.first
        } else if at == 1 {
            self.second
        } else if at == 2 {
            self.third
        } else {
            self.fourth
        }
    }

    /// Whether the key begins with some terms.
    pub open spec fn has_prefix(self, prefix: Seq<EncodedTerm>) -> bool {
        &&& prefix.len() <= 4
        &&& forall|at: int| 0 <= at < prefix.len() ==> self.term_at(at) == #[trigger] prefix[at]
    }

    /// The term at a place of the key.
    pub fn term(&self, at: usize) -> (r: &EncodedTerm)
        ensures
            *r == self.term_at(at as int),
    {
        if at == 0 {
            &self.first
        } else if at == 1 {
            &self.second
        } else if at == 2 {
            &self.third
        } else {
            &self.fourth
        }
    }

    /// Whether the key begins with some terms.
    pub fn starts_with(&self, prefix: &Vec<EncodedTerm>) -> (r: bool)
        ensures
            r == self.has_prefix(prefix@),
    {
        if prefix.len() > 4 {
            return false;
        }
        let mut at: usize = 0;
        while at < prefix.len()
            invariant
                at <= prefix@.len() <= 4,
                forall|i: int| 0 <= i < at ==> self.term_at(i) == #[trigger] prefix@[i],
            decreases prefix@.len() - at,
        {
            if !self.term(at).identical(&prefix[at]) {
                return false;
            }
            at += 1;
        }
        true
    }

    /// Whether two keys are the same.
    pub fn identical(&self, other: &Self) -> (r: bool)
        ensures
            r == (*self == *other),
    {
        self.first.identical(&other.first) && self.second.identical(&other.second)
            && self.third.identical(&other.third) && self.fourth.identical(&other.fourth)
    }
}

/// The key of a quad in an index of some order.
pub open spec fn key_of(order: IndexOrder, quad: EncodedQuad) -> IndexKey {
    IndexKey {
        first: quad.term_at(order.position(0)),
        second: quad.term_at(order.position(1)),
        third: quad.term_at(order.position(2)),
        fourth: quad.term_at(order.position(3)),
    }
}

/// The place of a key at which the term of a place of the quad stands.
pub open spec fn place_of(order: IndexOrder, position: Position) -> int {
    if order.position(0) == position {
        0
    } else if order.position(1) == position {
        1
    } else if order.position(2) == position {
        2
    } else {
        3
    }
}

/// The quad of a key of an index of some order.
pub open spec fn quad_of(order: IndexOrder, key: IndexKey) -> EncodedQuad {
    EncodedQuad {
        subject: key.term_at(place_of(order, Position::Subject)),
        predicate: key.term_at(place_of(order, Position::Predicate)),
        object: key.term_at(place_of(order, Position::Object)),
        graph_name: key.term_at(place_of(order, Position::Graph)),
    }
}

/// Reading the key of a quad gives the quad back, and writing the quad of a
/// key gives the key back.
pub proof fn lemma_key_round_trip(order: IndexOrder, quad: EncodedQuad, key: IndexKey)
    ensures
        quad_of(order, key_of(order, quad)) == quad,
        key_of(order, quad_of(order, key)) == key,
{
}

/// Writes the key of a quad.
pub fn make_key(order: IndexOrder, quad: &EncodedQuad) -> (r: IndexKey)
    ensures
        r == key_of(order, *quad),
{
    IndexKey {
        first: quad.term(order.position_at(0)).duplicate(),
        second: quad.term(order.position_at(1)).duplicate(),
        third: quad.term(order.position_at(2)).duplicate(),
        fourth: quad.term(order.position_at(3)).duplicate(),
    }
}

fn place(order: IndexOrder, position: Position) -> (r: usize)
    ensures
        r == place_of(order, position),
        r < 4,
{
    if order.position_at(0) == position {
        0
    } else if order.position_at(1) == position {
        1
    } else if order.position_at(2) == position {
        2
    } else {
        3
    }
}

/// Reads the quad of a key.
pub fn read_key(order: IndexOrder, key: &IndexKey) -> (r: EncodedQuad)
    ensures
        r == quad_of(order, *key),
{
    EncodedQuad {
        subject: key.term(place(order, Position::Subject)).duplicate(),
        predicate: key.term(place(order, Position::Predicate)).duplicate(),
        object: key.term(place(order, Position::Object)).duplicate(),
        graph_name: key.term(place(order, Position::Graph)).duplicate(),
    }
}

/// The terms with which the keys of the quads that a pattern asks for
/// begin, in an index of some order: the terms of the pattern in the order
/// of the index, up to the first place that the pattern leaves open.
pub open spec fn pattern_prefix(order: IndexOrder, pattern: QuadPattern) -> Seq<EncodedTerm> {
    match pattern.term_at(order.position(0)) {
        None => seq![],
        Some(first) => match pattern.term_at(order.position(1)) {
            None => seq![first],
            Some(second) => match pattern.term_at(order.position(2)) {
                None => seq![first, second],
                Some(third) => match pattern.term_at(order.position(3)) {
                    None => seq![first, second, third],
                    Some(fourth) => seq![first, second, third, fourth],
                },
            },
        },
    }
}

/// Whether the order of an index covers a pattern: the places at which the
/// pattern asks for a term come first in the order.
pub open spec fn covers(order: IndexOrder, pattern: QuadPattern) -> bool {
    pattern_prefix(order, pattern).len() == pattern.bound_count()
}

/// In an index whose order covers a pattern, the quads that the pattern
/// asks for are those whose key begins with the terms of the pattern.
pub proof fn lemma_covered_prefix(order: IndexOrder, pattern: QuadPattern, quad: EncodedQuad)
    requires
        covers(order, pattern),
    ensures
        key_of(order, quad).has_prefix(pattern_prefix(order, pattern)) <==> pattern.matches(quad),
{
    let prefix = pattern_prefix(order, pattern);
    let key = key_of(order, quad);
    if pattern.matches(quad) {
        assert(key.has_prefix(prefix));
    }
    if key.has_prefix(prefix) {
        if prefix.len() >= 1 {
            assert(key.term_at(0) == prefix[0]);
        }
        if prefix.len() >= 2 {
            assert(key.term_at(1) == prefix[1]);
        }
        if prefix.len() >= 3 {
            assert(key.term_at(2) == prefix[2]);
        }
        if prefix.len() >= 4 {
            assert(key.term_at(3) == prefix[3]);
        }
        assert(pattern.matches(quad));
    }
}

/// Writes the terms with which the keys that a pattern asks for begin.
pub fn make_prefix(order: IndexOrder, pattern: &QuadPattern) -> (r: Vec<EncodedTerm>)
    ensures
        r@ == pattern_prefix(order, *pattern),
{
    let mut prefix: Vec<EncodedTerm> = Vec::new();
    match pattern.term(order.position_at(0)) {
        None => {
            assert(prefix@ =~= pattern_prefix(order, *pattern));
            return prefix;
        },
        Some(term) => prefix.push(term.duplicate()),
    }
    match pattern.term(order.position_at(1)) {
        None => {
            assert(prefix@ =~= pattern_prefix(order, *pattern));
            return prefix;
        },
        Some(term) => prefix.push(term.duplicate()),
    }
    match pattern.term(order.position_at(2)) {
        None => {
            assert(prefix@ =~= pattern_prefix(order, *pattern));
            return prefix;
        },
        Some(term) => prefix.push(term.duplicate()),
    }
    match pattern.term(order.position_at(3)) {
        None => {
            assert(prefix@ =~= pattern_prefix(order, *pattern));
            return prefix;
        },
        Some(term) => prefix.push(term.duplicate()),
    }
    assert(prefix@ =~= pattern_prefix(order, *pattern));
    prefix
}

/// The index that serves a pattern in the default graph, by the places at
/// which the pattern asks for a term.
pub open spec fn default_graph_index(subject: bool, predicate: bool, object: bool) -> QuadIndex {
    if subject {
        if object && !predicate {
            QuadIndex::Dosp
        } else {
            QuadIndex::Dspo
        }
    } else if predicate {
        QuadIndex::Dpos
    } else if object {
        QuadIndex::Dosp
    } else {
        QuadIndex::Dspo
    }
}

/// The index that serves a pattern in one named graph.
pub open spec fn named_graph_index(subject: bool, predicate: bool, object: bool) -> QuadIndex {
    if subject {
        if object && !predicate {
            QuadIndex::Gosp
        } else {
            QuadIndex::Gspo
        }
    } else if predicate {
        QuadIndex::Gpos
    } else if object {
        QuadIndex::Gosp
    } else {
        QuadIndex::Gspo
    }
}

/// The index that serves a pattern over all the named graphs.
pub open spec fn all_graphs_index(subject: bool, predicate: bool, object: bool) -> QuadIndex {
    if subject {
        if object && !predicate {
            QuadIndex::Ospg
        } else {
            QuadIndex::Spog
        }
    } else if predicate {
        QuadIndex::Posg
    } else if object {
        QuadIndex::Ospg
    } else {
        QuadIndex::Gspo
    }
}

/// Chooses the index that serves a pattern in the default graph.
pub fn choose_default_graph_index(pattern: &QuadPattern) -> (r: QuadIndex)
    ensures
        r == default_graph_index(
            pattern.subject is Some,
            pattern.predicate is Some,
            pattern.object is Some,
        ),
        r.holds_default_graph(),
        pattern.graph_name == Some(EncodedTerm::DefaultGraph) ==> covers(
            r.order(),
            QuadPattern {
                subject: pattern.subject,
                predicate: pattern.predicate,
                object: pattern.object,
                graph_name: None,
            },
        ),
{
    if pattern.subject.is_some() {
        if pattern.object.is_some() && !pattern.predicate.is_some() {
            QuadIndex::Dosp
        } else {
            QuadIndex::Dspo
        }
    } else if pattern.predicate.is_some() {
        QuadIndex::Dpos
    } else if pattern.object.is_some() {
        QuadIndex::Dosp
    } else {
        QuadIndex::Dspo
    }
}

/// Chooses the index that serves a pattern in one named graph.
pub fn choose_named_graph_index(pattern: &QuadPattern) -> (r: QuadIndex)
    ensures
        r == named_graph_index(
            pattern.subject is Some,
            pattern.predicate is Some,
            pattern.object is Some,
        ),
        !r.holds_default_graph(),
        pattern.graph_name is Some ==> covers(r.order(), *pattern),
{
    if pattern.subject.is_some() {
        if pattern.object.is_some() && !pattern.predicate.is_some() {
            QuadIndex::Gosp
        } else {
            QuadIndex::Gspo
        }
    } else if pattern.predicate.is_some() {
        QuadIndex::Gpos
    } else if pattern.object.is_some() {
        QuadIndex::Gosp
    } else {
        QuadIndex::Gspo
    }
}

/// Chooses the index that serves a pattern over all the named graphs.
pub fn choose_all_graphs_index(pattern: &QuadPattern) -> (r: QuadIndex)
    ensures
        r == all_graphs_index(
            pattern.subject is Some,
            pattern.predicate is Some,
            pattern.object is Some,
        ),
        !r.holds_default_graph(),
        pattern.graph_name is None ==> covers(r.order(), *pattern),
{
    if pattern.subject.is_some() {
        if pattern.object.is_some() && !pattern.predicate.is_some() {
            QuadIndex::Ospg
        } else {
            QuadIndex::Spog
        }
    } else if pattern.predicate.is_some() {
        QuadIndex::Posg
    } else if pattern.object.is_some() {
        QuadIndex::Ospg
    } else {
        QuadIndex::Gspo
    }
}

} // verus!

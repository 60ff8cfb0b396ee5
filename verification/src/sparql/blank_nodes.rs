//! Fresh blank nodes for the blank nodes of an update.

use crate::model::blank_node::{BlankNode, BlankNodeView};
use crate::model::isomorphism::{subject_blank_nodes, term_blank_nodes, triple_blank_nodes};
use crate::model::triple::{
    Quad, QuadView, Subject, SubjectView, Term, TermView, Triple, TripleView,
};
use vstd::prelude::*;

verus! {

/// Draws a number with `rand::random`.
#[verifier::external_body]
fn random_id() -> u128 {
    rand::random::<u128>()
}

impl BlankNode {
    /// A blank node of a number drawn at random.
    pub fn fresh() -> (r: Self)
        ensures
            r@ is Anonymous,
    {
        BlankNode::new_from_unique_id(random_id())
    }
}

/// Whether a map holds all of another map and gives, to each blank node
/// that the other did not hold, the blank node of a number.
pub open spec fn grown_from(
    after: Map<BlankNodeView, BlankNodeView>,
    before: Map<BlankNodeView, BlankNodeView>,
) -> bool {
    &&& before.submap_of(after)
    &&& forall|key: BlankNodeView|
        after.contains_key(key) && !before.contains_key(key) ==> #[trigger] after[key]
            is Anonymous
}

/// A map that has grown from a map that has grown from another has grown
/// from the other.
pub proof fn lemma_grown_twice(
    first: Map<BlankNodeView, BlankNodeView>,
    second: Map<BlankNodeView, BlankNodeView>,
    third: Map<BlankNodeView, BlankNodeView>,
)
    requires
        grown_from(second, first),
        grown_from(third, second),
    ensures
        grown_from(third, first),
{
    assert forall|key: BlankNodeView| #[trigger] first.dom().contains(key) implies third.dom().contains(
        key,
    ) && first[key] == third[key] by {
        assert(second.dom().contains(key));
    }
    assert forall|key: BlankNodeView|
        third.contains_key(key) && !first.contains_key(key) implies #[trigger] third[key]
        is Anonymous by {
        if second.contains_key(key) {
            assert(second.dom().contains(key));
            assert(second[key] is Anonymous);
        }
    }
}

/// For the blank nodes of an update, the blank nodes that take their place
/// in the store.
pub struct BlankNodeMap {
    pairs: Vec<(BlankNode, BlankNode)>,
}

spec fn map_of(pairs: Seq<(BlankNode, BlankNode)>) -> Map<BlankNodeView, BlankNodeView>
    decreases pairs.len(),
{
    if pairs.len() == 0 {
        Map::empty()
    } else {
        map_of(pairs.drop_last()).insert(pairs.last().0@, pairs.last().1@)
    }
}

spec fn distinct_keys(pairs: Seq<(BlankNode, BlankNode)>) -> bool {
    forall|i: int, j: int|
        0 <= i < j < pairs.len() ==> (#[trigger] pairs[i]).0@ != (#[trigger] pairs[j]).0@
}

proof fn lemma_map_of(pairs: Seq<(BlankNode, BlankNode)>)
    requires
        distinct_keys(pairs),
    ensures
        forall|i: int|
            0 <= i < pairs.len() ==> map_of(pairs).contains_key((#[trigger] pairs[i]).0@)
                && map_of(pairs)[pairs[i].0@] == pairs[i].1@,
        forall|key: BlankNodeView|
            map_of(pairs).contains_key(key) ==> exists|i: int|
                0 <= i < pairs.len() && (#[trigger] pairs[i]).0@ == key,
    decreases pairs.len(),
{
    if pairs.len() > 0 {
        let front = pairs.drop_last();
        lemma_map_of(front);
        assert forall|i: int| 0 <= i < pairs.len() implies map_of(pairs).contains_key(
            (#[trigger] pairs[i]).0@,
        ) && map_of(pairs)[pairs[i].0@] == pairs[i].1@ by {
            if i < front.len() {
                assert(front[i] == pairs[i]);
            }
        }
        assert forall|key: BlankNodeView| map_of(pairs).contains_key(key) implies exists|i: int|
            0 <= i < pairs.len() && (#[trigger] pairs[i]).0@ == key by {
            if key == pairs.last().0@ {
                assert(pairs[pairs.len() - 1].0@ == key);
            } else {
                assert(map_of(front).contains_key(key));
                let i = choose|i: int| 0 <= i < front.len() && (#[trigger] front[i]).0@ == key;
                assert(pairs[i] == front[i]);
            }
        }
    }
}

impl View for BlankNodeMap {
    type V = Map<BlankNodeView, BlankNodeView>;

    closed spec fn view(&self) -> Map<BlankNodeView, BlankNodeView> {
        map_of(self.pairs@)
    }
}

impl BlankNodeMap {
    /// The map is in order: no blank node stands in it twice.
    pub closed spec fn wf(&self) -> bool {
        distinct_keys(self.pairs@)
    }

    /// A map without blank nodes.
    pub fn new() -> (r: Self)
        ensures
            r.wf(),
            r@ == Map::<BlankNodeView, BlankNodeView>::empty(),
    {
        Self { pairs: Vec::new() }
    }

    /// The blank node that takes the place of a blank node, if the map has
    /// one for it.
    pub fn get(&self, node: &BlankNode) -> (r: Option<BlankNode>)
        requires
            self.wf(),
        ensures
            r is Some <==> self@.contains_key(node@),
            r matches Some(image) ==> image@ == self@[node@],
    {
        proof {
            lemma_map_of(self.pairs@);
        }
        let mut i: usize = 0;
        while i < self.pairs.len()
            invariant
                self.wf(),
                i <= self.pairs@.len(),
                forall|j: int| 0 <= j < i ==> (#[trigger] self.pairs@[j]).0@ != node@,
            decreases self.pairs@.len() - i,
        {
            if self.pairs[i].0.same(node) {
                proof {
                    lemma_map_of(self.pairs@);
                }
                return Some(self.pairs[i].1.duplicate());
            }
            i += 1;
        }
        None
    }

    /// Gives a blank node a fresh blank node to take its place, if it has
    /// none.
    pub fn allocate(&mut self, node: &BlankNode)
        requires
            old(self).wf(),
        ensures
            final(self).wf(),
            final(self)@.contains_key(node@),
            old(self)@.submap_of(final(self)@),
            final(self)@.dom() == old(self)@.dom().insert(node@),
            grown_from(final(self)@, old(self)@),
    {
        if self.get(node).is_some() {
            proof {
                assert(self@.dom().insert(node@) =~= self@.dom());
            }
            return ;
        }
        let fresh = BlankNode::fresh();
        proof {
            lemma_map_of(self.pairs@);
        }
        self.pairs.push((node.duplicate(), fresh));
        proof {
            assert(self.pairs@.drop_last() =~= old(self).pairs@);
            assert forall|i: int, j: int| 0 <= i < j < self.pairs@.len() implies (
            #[trigger] self.pairs@[i]).0@ != (#[trigger] self.pairs@[j]).0@ by {
                assert(self.pairs@[i] == old(self).pairs@[i]);
                if j < old(self).pairs@.len() {
                    assert(self.pairs@[j] == old(self).pairs@[j]);
                } else {
                    assert(old(self)@.contains_key(old(self).pairs@[i].0@));
                }
            }
            assert(self@.dom() =~= old(self)@.dom().insert(node@));
        }
    }

    /// The map that gives each of some blank nodes, of which none comes
    /// twice, the blank node of a number: of its rank and one.
    pub fn from_ranks(nodes: &Vec<BlankNode>, ranks: &Vec<usize>) -> (r: Self)
        requires
            nodes@.len() == ranks@.len(),
            forall|i: int, j: int|
                0 <= i < j < nodes@.len() ==> (#[trigger] nodes@[i])@ != (#[trigger] nodes@[j])@,
        ensures
            r.wf(),
            forall|i: int|
                0 <= i < nodes@.len() ==> r@.contains_key((#[trigger] nodes@[i])@) && r@[nodes@[i]@]
                    == BlankNodeView::Anonymous((ranks@[i] + 1) as u128),
            forall|key: BlankNodeView|
                r@.contains_key(key) ==> exists|i: int|
                    0 <= i < nodes@.len() && (#[trigger] nodes@[i])@ == key,
    {
        let mut pairs: Vec<(BlankNode, BlankNode)> = Vec::new();
        let mut i: usize = 0;
        while i < nodes.len()
            invariant
                i <= nodes@.len(),
                nodes@.len() == ranks@.len(),
                pairs@.len() == i,
                forall|k: int|
                    0 <= k < i ==> (#[trigger] pairs@[k]).0@ == nodes@[k]@ && pairs@[k].1@
                        == BlankNodeView::Anonymous((ranks@[k] + 1) as u128),
            decreases nodes@.len() - i,
        {
            let image = BlankNode::new_from_unique_id(ranks[i] as u128 + 1);
            pairs.push((nodes[i].duplicate(), image));
            i += 1;
        }
        let r = Self { pairs };
        proof {
            assert(distinct_keys(r.pairs@)) by {
                assert forall|a: int, b: int| 0 <= a < b < r.pairs@.len() implies (
                #[trigger] r.pairs@[a]).0@ != (#[trigger] r.pairs@[b]).0@ by {
                    assert(nodes@[a]@ != nodes@[b]@);
                }
            }
            lemma_map_of(r.pairs@);
            assert forall|k: int| 0 <= k < nodes@.len() implies r@.contains_key(
                (#[trigger] nodes@[k])@,
            ) && r@[nodes@[k]@] == BlankNodeView::Anonymous((ranks@[k] + 1) as u128) by {
                assert(r.pairs@[k].0@ == nodes@[k]@);
            }
            assert forall|key: BlankNodeView| r@.contains_key(key) implies exists|k: int|
                0 <= k < nodes@.len() && (#[trigger] nodes@[k])@ == key by {
                let k = choose|k: int| 0 <= k < r.pairs@.len() && (#[trigger] r.pairs@[k]).0@ == key;
                assert(nodes@[k]@ == key);
            }
        }
        r
    }

    /// Forgets every blank node.
    pub fn clear(&mut self)
        ensures
            final(self).wf(),
            final(self)@ == Map::<BlankNodeView, BlankNodeView>::empty(),
    {
        self.pairs.clear();
    }
}

/// A blank node with what takes its place, or itself where nothing does.
pub open spec fn renamed_blank_node(
    node: BlankNodeView,
    map: Map<BlankNodeView, BlankNodeView>,
) -> BlankNodeView {
    if map.contains_key(node) {
        map[node]
    } else {
        node
    }
}

/// A term with what takes the place of its blank nodes.
pub open spec fn renamed_term(term: TermView, map: Map<BlankNodeView, BlankNodeView>) -> TermView
    decreases term,
{
    match term {
        TermView::BlankNode(node) => TermView::BlankNode(renamed_blank_node(node, map)),
        TermView::Triple(triple) => TermView::Triple(Box::new(renamed_triple(*triple, map))),
        _ => term,
    }
}

/// A subject with what takes the place of its blank nodes.
pub open spec fn renamed_subject(
    subject: SubjectView,
    map: Map<BlankNodeView, BlankNodeView>,
) -> SubjectView
    decreases subject,
{
    match subject {
        SubjectView::BlankNode(node) => SubjectView::BlankNode(renamed_blank_node(node, map)),
        SubjectView::Triple(triple) => SubjectView::Triple(Box::new(renamed_triple(*triple, map))),
        _ => subject,
    }
}

/// A triple with what takes the place of its blank nodes.
pub open spec fn renamed_triple(
    triple: TripleView,
    map: Map<BlankNodeView, BlankNodeView>,
) -> TripleView
    decreases triple,
{
    TripleView {
        subject: renamed_subject(triple.subject, map),
        predicate: triple.predicate,
        object: renamed_term(triple.object, map),
    }
}

/// A quad with what takes the place of its blank nodes. The name of its
/// graph stays.
pub open spec fn renamed_quad(quad: QuadView, map: Map<BlankNodeView, BlankNodeView>) -> QuadView {
    QuadView {
        subject: renamed_subject(quad.subject, map),
        predicate: quad.predicate,
        object: renamed_term(quad.object, map),
        graph_name: quad.graph_name,
    }
}

fn convert_blank_node(node: &BlankNode, bnodes: &BlankNodeMap) -> (r: BlankNode)
    requires
        bnodes.wf(),
    ensures
        r@ == renamed_blank_node(node@, bnodes@),
{
    match bnodes.get(node) {
        Some(image) => image,
        None => node.duplicate(),
    }
}

/// The term with what takes the place of its blank nodes.
pub fn convert_term(term: &Term, bnodes: &BlankNodeMap) -> (r: Term)
    requires
        bnodes.wf(),
    ensures
        r@ == renamed_term(term@, bnodes@),
    decreases *term,
{
    match term {
        Term::NamedNode(node) => Term::NamedNode(node.duplicate()),
        Term::BlankNode(node) => Term::BlankNode(convert_blank_node(node, bnodes)),
        Term::Literal(literal) => Term::Literal(literal.duplicate()),
        Term::Triple(triple) => Term::Triple(Box::new(convert_triple(triple, bnodes))),
    }
}

/// The subject with what takes the place of its blank nodes.
pub fn convert_subject(subject: &Subject, bnodes: &BlankNodeMap) -> (r: Subject)
    requires
        bnodes.wf(),
    ensures
        r@ == renamed_subject(subject@, bnodes@),
    decreases *subject,
{
    match subject {
        Subject::NamedNode(node) => Subject::NamedNode(node.duplicate()),
        Subject::BlankNode(node) => Subject::BlankNode(convert_blank_node(node, bnodes)),
        Subject::Triple(triple) => Subject::Triple(Box::new(convert_triple(triple, bnodes))),
    }
}

/// The triple with what takes the place of its blank nodes.
pub fn convert_triple(triple: &Triple, bnodes: &BlankNodeMap) -> (r: Triple)
    requires
        bnodes.wf(),
    ensures
        r@ == renamed_triple(triple@, bnodes@),
    decreases *triple,
{
    Triple {
        subject: convert_subject(&triple.subject, bnodes),
        predicate: triple.predicate.duplicate(),
        object: convert_term(&triple.object, bnodes),
    }
}

/// The quad with what takes the place of its blank nodes.
pub fn convert_quad(quad: &Quad, bnodes: &BlankNodeMap) -> (r: Quad)
    requires
        bnodes.wf(),
    ensures
        r@ == renamed_quad(quad@, bnodes@),
{
    Quad {
        subject: convert_subject(&quad.subject, bnodes),
        predicate: quad.predicate.duplicate(),
        object: convert_term(&quad.object, bnodes),
        graph_name: quad.graph_name.duplicate(),
    }
}

/// Whether a map has a blank node for every blank node of a term.
pub open spec fn term_is_mapped(term: TermView, map: Map<BlankNodeView, BlankNodeView>) -> bool
    decreases term,
{
    match term {
        TermView::BlankNode(node) => map.contains_key(node),
        TermView::Triple(triple) => triple_is_mapped(*triple, map),
        _ => true,
    }
}

pub open spec fn subject_is_mapped(
    subject: SubjectView,
    map: Map<BlankNodeView, BlankNodeView>,
) -> bool
    decreases subject,
{
    match subject {
        SubjectView::BlankNode(node) => map.contains_key(node),
        SubjectView::Triple(triple) => triple_is_mapped(*triple, map),
        _ => true,
    }
}

pub open spec fn triple_is_mapped(
    triple: TripleView,
    map: Map<BlankNodeView, BlankNodeView>,
) -> bool
    decreases triple,
{
    subject_is_mapped(triple.subject, map) && term_is_mapped(triple.object, map)
}

pub open spec fn quad_is_mapped(quad: QuadView, map: Map<BlankNodeView, BlankNodeView>) -> bool {
    subject_is_mapped(quad.subject, map) && term_is_mapped(quad.object, map)
}

/// What is mapped stays mapped in a map that holds more.
pub proof fn lemma_term_stays_mapped(
    term: TermView,
    before: Map<BlankNodeView, BlankNodeView>,
    after: Map<BlankNodeView, BlankNodeView>,
)
    requires
        before.submap_of(after),
        term_is_mapped(term, before),
    ensures
        term_is_mapped(term, after),
        renamed_term(term, after) == renamed_term(term, before),
    decreases term,
{
    match term {
        TermView::BlankNode(node) => {
            assert(before.dom().contains(node));
        },
        TermView::Triple(triple) => lemma_triple_stays_mapped(*triple, before, after),
        _ => {},
    }
}

pub proof fn lemma_subject_stays_mapped(
    subject: SubjectView,
    before: Map<BlankNodeView, BlankNodeView>,
    after: Map<BlankNodeView, BlankNodeView>,
)
    requires
        before.submap_of(after),
        subject_is_mapped(subject, before),
    ensures
        subject_is_mapped(subject, after),
        renamed_subject(subject, after) == renamed_subject(subject, before),
    decreases subject,
{
    match subject {
        SubjectView::BlankNode(node) => {
            assert(before.dom().contains(node));
        },
        SubjectView::Triple(triple) => lemma_triple_stays_mapped(*triple, before, after),
        _ => {},
    }
}

pub proof fn lemma_triple_stays_mapped(
    triple: TripleView,
    before: Map<BlankNodeView, BlankNodeView>,
    after: Map<BlankNodeView, BlankNodeView>,
)
    requires
        before.submap_of(after),
        triple_is_mapped(triple, before),
    ensures
        triple_is_mapped(triple, after),
        renamed_triple(triple, after) == renamed_triple(triple, before),
    decreases triple,
{
    lemma_subject_stays_mapped(triple.subject, before, after);
    lemma_term_stays_mapped(triple.object, before, after);
}

proof fn lemma_submap_transitive(
    a: Map<BlankNodeView, BlankNodeView>,
    b: Map<BlankNodeView, BlankNodeView>,
    c: Map<BlankNodeView, BlankNodeView>,
)
    requires
        a.submap_of(b),
        b.submap_of(c),
    ensures
        a.submap_of(c),
{
    assert forall|key: BlankNodeView| #[trigger] a.dom().contains(key) implies c.dom().contains(
        key,
    ) && a[key] == c[key] by {
        assert(b.dom().contains(key));
    }
}

/// The blank nodes of a quad: those of its subject and of its object.
pub open spec fn quad_blank_nodes(quad: QuadView) -> Set<BlankNodeView> {
    subject_blank_nodes(quad.subject).union(term_blank_nodes(quad.object))
}

/// Gives a fresh blank node to every blank node of a term that has none.
pub fn allocate_in_term(term: &Term, bnodes: &mut BlankNodeMap)
    requires
        old(bnodes).wf(),
    ensures
        final(bnodes).wf(),
        old(bnodes)@.submap_of(final(bnodes)@),
        term_is_mapped(term@, final(bnodes)@),
        grown_from(final(bnodes)@, old(bnodes)@),
        final(bnodes)@.dom() == old(bnodes)@.dom().union(term_blank_nodes(term@)),
    decreases *term,
{
    let ghost start = bnodes@;
    match term {
        Term::BlankNode(node) => {
            bnodes.allocate(node);
            proof {
                assert(start.dom().insert(node@) =~= start.dom().union(set![node@]));
            }
        },
        Term::Triple(triple) => allocate_in_triple(triple, bnodes),
        _ => {
            proof {
                assert(start.dom() =~= start.dom().union(Set::<BlankNodeView>::empty()));
            }
        },
    }
}

/// Gives a fresh blank node to every blank node of a subject that has
/// none.
pub fn allocate_in_subject(subject: &Subject, bnodes: &mut BlankNodeMap)
    requires
        old(bnodes).wf(),
    ensures
        final(bnodes).wf(),
        old(bnodes)@.submap_of(final(bnodes)@),
        subject_is_mapped(subject@, final(bnodes)@),
        grown_from(final(bnodes)@, old(bnodes)@),
        final(bnodes)@.dom() == old(bnodes)@.dom().union(subject_blank_nodes(subject@)),
    decreases *subject,
{
    let ghost start = bnodes@;
    match subject {
        Subject::BlankNode(node) => {
            bnodes.allocate(node);
            proof {
                assert(start.dom().insert(node@) =~= start.dom().union(set![node@]));
            }
        },
        Subject::Triple(triple) => allocate_in_triple(triple, bnodes),
        _ => {
            proof {
                assert(start.dom() =~= start.dom().union(Set::<BlankNodeView>::empty()));
            }
        },
    }
}

/// Gives a fresh blank node to every blank node of a triple that has
/// none.
pub fn allocate_in_triple(triple: &Triple, bnodes: &mut BlankNodeMap)
    requires
        old(bnodes).wf(),
    ensures
        final(bnodes).wf(),
        old(bnodes)@.submap_of(final(bnodes)@),
        triple_is_mapped(triple@, final(bnodes)@),
        grown_from(final(bnodes)@, old(bnodes)@),
        final(bnodes)@.dom() == old(bnodes)@.dom().union(triple_blank_nodes(triple@)),
    decreases *triple,
{
    allocate_in_subject(&triple.subject, bnodes);
    let ghost middle = bnodes@;
    allocate_in_term(&triple.object, bnodes);
    proof {
        lemma_subject_stays_mapped(triple@.subject, middle, bnodes@);
        lemma_submap_transitive(old(bnodes)@, middle, bnodes@);
        lemma_grown_twice(old(bnodes)@, middle, bnodes@);
        assert(bnodes@.dom() =~= old(bnodes)@.dom().union(triple_blank_nodes(triple@)));
    }
}

/// Gives a fresh blank node to every blank node of a quad that has none.
pub fn allocate_in_quad(quad: &Quad, bnodes: &mut BlankNodeMap)
    requires
        old(bnodes).wf(),
    ensures
        final(bnodes).wf(),
        old(bnodes)@.submap_of(final(bnodes)@),
        quad_is_mapped(quad@, final(bnodes)@),
        grown_from(final(bnodes)@, old(bnodes)@),
        final(bnodes)@.dom() == old(bnodes)@.dom().union(quad_blank_nodes(quad@)),
{
    allocate_in_subject(&quad.subject, bnodes);
    let ghost middle = bnodes@;
    allocate_in_term(&quad.object, bnodes);
    proof {
        lemma_subject_stays_mapped(quad@.subject, middle, bnodes@);
        lemma_submap_transitive(old(bnodes)@, middle, bnodes@);
        lemma_grown_twice(old(bnodes)@, middle, bnodes@);
        assert(bnodes@.dom() =~= old(bnodes)@.dom().union(quad_blank_nodes(quad@)));
    }
}

} // verus!

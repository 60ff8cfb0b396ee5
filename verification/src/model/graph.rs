//! An RDF graph held in memory.

use crate::model::named_node::NamedNode;
use crate::model::triple::{Subject, SubjectView, Term, TermView, Triple, TripleView};
use crate::seq_sets::{lemma_push_to_set, lemma_remove_to_set};
use vstd::prelude::*;

verus! {

/// What some triples are, one for one.
pub open spec fn triple_views(triples: Seq<Triple>) -> Seq<TripleView> {
    Seq::new(triples.len(), |i: int| triples[i]@)
}

/// What some terms are, one for one.
pub open spec fn term_views(terms: Seq<Term>) -> Seq<TermView> {
    Seq::new(terms.len(), |i: int| terms[i]@)
}

/// What some subjects are, one for one.
pub open spec fn subject_views(subjects: Seq<Subject>) -> Seq<SubjectView> {
    Seq::new(subjects.len(), |i: int| subjects[i]@)
}

/// What some IRIs are, one for one.
pub open spec fn named_node_views(nodes: Seq<NamedNode>) -> Seq<Seq<char>> {
    Seq::new(nodes.len(), |i: int| nodes[i]@)
}

/// Whether a triple has the given subject, predicate and object, where one
/// is given.
pub open spec fn triple_matches(
    triple: TripleView,
    subject: Option<SubjectView>,
    predicate: Option<Seq<char>>,
    object: Option<TermView>,
) -> bool {
    &&& subject matches Some(s) ==> triple.subject == s
    &&& predicate matches Some(p) ==> triple.predicate == p
    &&& object matches Some(o) ==> triple.object == o
}

/// What a subject is, if there is one.
pub open spec fn subject_option_view(subject: Option<&Subject>) -> Option<SubjectView> {
    match subject {
        Some(s) => Some(s@),
        None => None,
    }
}

/// What a predicate is, if there is one.
pub open spec fn predicate_option_view(predicate: Option<&NamedNode>) -> Option<Seq<char>> {
    match predicate {
        Some(p) => Some(p@),
        None => None,
    }
}

/// What an object is, if there is one.
pub open spec fn object_option_view(object: Option<&Term>) -> Option<TermView> {
    match object {
        Some(o) => Some(o@),
        None => None,
    }
}

/// The triples, of some triples, that have the given subject, predicate and
/// object, where one is given, in their order.
pub open spec fn matching_triples(
    all: Seq<TripleView>,
    subject: Option<SubjectView>,
    predicate: Option<Seq<char>>,
    object: Option<TermView>,
) -> Seq<TripleView>
    decreases all.len(),
{
    if all.len() == 0 {
        Seq::empty()
    } else if triple_matches(all.last(), subject, predicate, object) {
        matching_triples(all.drop_last(), subject, predicate, object).push(all.last())
    } else {
        matching_triples(all.drop_last(), subject, predicate, object)
    }
}

/// The objects of some triples, one for one.
pub open spec fn objects_of(triples: Seq<TripleView>) -> Seq<TermView> {
    Seq::new(triples.len(), |i: int| triples[i].object)
}

/// The listing of a graph once some triples are added, one after the
/// other: each goes behind the others, unless the graph holds it.
pub open spec fn listed_with(listed: Seq<TripleView>, triples: Seq<TripleView>) -> Seq<TripleView>
    decreases triples.len(),
{
    if triples.len() == 0 {
        listed
    } else {
        let before = listed_with(listed, triples.drop_last());
        if before.contains(triples.last()) {
            before
        } else {
            before.push(triples.last())
        }
    }
}

/// Triples of which none comes twice, added to an empty listing, are the
/// listing.
pub proof fn lemma_listed_with_all(triples: Seq<TripleView>)
    requires
        triples.no_duplicates(),
    ensures
        listed_with(Seq::empty(), triples) == triples,
    decreases triples.len(),
{
    if triples.len() > 0 {
        let front = triples.drop_last();
        lemma_listed_with_all(front);
        if front.contains(triples.last()) {
            let i = choose|i: int| 0 <= i < front.len() && front[i] == triples.last();
            assert(triples[i] == triples[triples.len() - 1]);
        }
        assert(front.push(triples.last()) =~= triples);
    }
}

/// The predicates of some triples, one for one.
pub open spec fn predicates_of(triples: Seq<TripleView>) -> Seq<Seq<char>> {
    Seq::new(triples.len(), |i: int| triples[i].predicate)
}

/// The subjects of some triples, one for one.
pub open spec fn subjects_of(triples: Seq<TripleView>) -> Seq<SubjectView> {
    Seq::new(triples.len(), |i: int| triples[i].subject)
}

/// An RDF graph held in memory: a set of triples.
#[derive(Debug)]
pub struct Graph {
    triples: Vec<Triple>,
}

impl View for Graph {
    type V = Set<TripleView>;

    closed spec fn view(&self) -> Set<TripleView> {
        triple_views(self.triples@).to_set()
    }
}

proof fn lemma_views_push(triples: Seq<Triple>, triple: Triple)
    ensures
        triple_views(triples.push(triple)) == triple_views(triples).push(triple@),
{
    assert(triple_views(triples.push(triple)) =~= triple_views(triples).push(triple@));
}

proof fn lemma_views_remove(triples: Seq<Triple>, at: int)
    requires
        0 <= at < triples.len(),
    ensures
        triple_views(triples.remove(at)) == triple_views(triples).remove(at),
{
    assert(triple_views(triples.remove(at)) =~= triple_views(triples).remove(at));
}

/// Where nothing is asked for, every triple matches.
proof fn lemma_all_match(all: Seq<TripleView>)
    ensures
        matching_triples(all, None, None, None) == all,
    decreases all.len(),
{
    if all.len() > 0 {
        lemma_all_match(all.drop_last());
        assert(triple_matches(all.last(), None, None, None));
        assert(all.drop_last().push(all.last()) =~= all);
    }
}

impl Graph {
    /// The graph is in order: it holds no triple twice.
    pub closed spec fn wf(&self) -> bool {
        triple_views(self.triples@).no_duplicates()
    }

    /// The triples of the graph in the order in which they came in.
    pub closed spec fn listed(&self) -> Seq<TripleView> {
        triple_views(self.triples@)
    }

    /// The triples of the graph are those that came in, each once.
    pub proof fn lemma_listed(&self)
        requires
            self.wf(),
        ensures
            self.listed().to_set() == self@,
            self.listed().no_duplicates(),
    {
    }

    /// The number of triples that the graph holds.
    pub closed spec fn spec_len(&self) -> nat {
        self.triples@.len()
    }

    /// A graph without triples.
    pub fn new() -> (r: Self)
        ensures
            r.wf(),
            r@ == Set::<TripleView>::empty(),
            r.listed() == Seq::<TripleView>::empty(),
            r.spec_len() == 0,
    {
        let r = Self { triples: Vec::new() };
        proof {
            assert(r.listed() =~= Seq::<TripleView>::empty());
            assert(r@ =~= Set::<TripleView>::empty());
        }
        r
    }

    fn find(&self, triple: &Triple) -> (r: Option<usize>)
        ensures
            r matches Some(at) ==> at < self.triples@.len() && self.triples@[at as int]@
                == triple@,
            r is Some <==> self@.contains(triple@),
    {
        let mut i: usize = 0;
        while i < self.triples.len()
            invariant
                i <= self.triples@.len(),
                forall|j: int| 0 <= j < i ==> self.triples@[j]@ != triple@,
            decreases self.triples@.len() - i,
        {
            if self.triples[i].same(triple) {
                proof {
                    assert(triple_views(self.triples@)[i as int] == triple@);
                }
                return Some(i);
            }
            i += 1;
        }
        proof {
            if self@.contains(triple@) {
                let views = triple_views(self.triples@);
                let k = choose|k: int| 0 <= k < views.len() && views[k] == triple@;
                assert(self.triples@[k]@ == triple@);
            }
        }
        None
    }

    /// The triples of the graph that have the given subject, predicate and
    /// object, where one is given, in the order in which they came in.
    fn select(
        &self,
        subject: Option<&Subject>,
        predicate: Option<&NamedNode>,
        object: Option<&Term>,
    ) -> (r: Vec<Triple>)
        requires
            self.wf(),
        ensures
            triple_views(r@) == matching_triples(
                self.listed(),
                subject_option_view(subject),
                predicate_option_view(predicate),
                object_option_view(object),
            ),
            forall|triple: TripleView|
                #![trigger triple_views(r@).contains(triple)]
                #![trigger self@.contains(triple)]
                triple_views(r@).contains(triple) <==> self@.contains(triple) && triple_matches(
                    triple,
                    subject_option_view(subject),
                    predicate_option_view(predicate),
                    object_option_view(object),
                ),
            triple_views(r@).no_duplicates(),
    {
        let ghost s = subject_option_view(subject);
        let ghost p = predicate_option_view(predicate);
        let ghost o = object_option_view(object);
        let ghost all = triple_views(self.triples@);
        let mut out: Vec<Triple> = Vec::new();
        let ghost mut picked: Seq<int> = Seq::empty();
        let mut i: usize = 0;
        proof {
            assert(all.take(0) =~= Seq::<TripleView>::empty());
            assert(triple_views(out@) =~= Seq::<TripleView>::empty());
        }
        while i < self.triples.len()
            invariant
                i <= self.triples@.len(),
                all == triple_views(self.triples@),
                triple_views(out@) == matching_triples(all.take(i as int), s, p, o),
                all.no_duplicates(),
                picked.len() == out@.len(),
                forall|k: int|
                    0 <= k < picked.len() ==> 0 <= #[trigger] picked[k] < i && out@[k]@
                        == all[picked[k]] && triple_matches(all[picked[k]], s, p, o),
                forall|a: int, b: int|
                    0 <= a < b < picked.len() ==> #[trigger] picked[a] < #[trigger] picked[b],
                forall|j: int|
                    0 <= j < i && triple_matches(#[trigger] all[j], s, p, o) ==> picked.contains(j),
                s == subject_option_view(subject),
                p == predicate_option_view(predicate),
                o == object_option_view(object),
            decreases self.triples@.len() - i,
        {
            let triple = &self.triples[i];
            let subject_fits = match subject {
                Some(s) => triple.subject.same(s),
                None => true,
            };
            let predicate_fits = match predicate {
                Some(p) => triple.predicate.same(p),
                None => true,
            };
            let object_fits = match object {
                Some(o) => triple.object.same(o),
                None => true,
            };
            proof {
                assert(all[i as int] == triple@);
                assert(all.take(i as int + 1).drop_last() =~= all.take(i as int));
                assert(all.take(i as int + 1).last() == all[i as int]);
            }
            let ghost held = triple_views(out@);
            if subject_fits && predicate_fits && object_fits {
                out.push(triple.duplicate());
                proof {
                    assert(triple_views(out@) =~= held.push(triple@));
                    let before = picked;
                    picked = picked.push(i as int);
                    assert forall|j: int|
                        0 <= j < i + 1 && triple_matches(#[trigger] all[j], s, p, o) implies 
                        picked.contains(j) by {
                        if j < i {
                            let k = choose|k: int| 0 <= k < before.len() && before[k] == j;
                            assert(picked[k] == j);
                        } else {
                            assert(picked[before.len() as int] == j);
                        }
                    }
                }
            }
            i += 1;
        }
        proof {
            assert(all.take(all.len() as int) =~= all);
            let views = triple_views(out@);
            assert forall|triple: TripleView|
                views.contains(triple) <==> self@.contains(triple) && triple_matches(
                    triple,
                    s,
                    p,
                    o,
                ) by {
                if views.contains(triple) {
                    let k = choose|k: int| 0 <= k < views.len() && views[k] == triple;
                    assert(out@[k]@ == all[picked[k]]);
                    assert(all.contains(triple));
                }
                if self@.contains(triple) && triple_matches(triple, s, p, o) {
                    let j = choose|j: int| 0 <= j < all.len() && all[j] == triple;
                    assert(picked.contains(j));
                    let k = choose|k: int| 0 <= k < picked.len() && picked[k] == j;
                    assert(views[k] == triple);
                }
            }
            assert forall|a: int, b: int| 0 <= a < b < views.len() implies views[a] != views[b] by {
                assert(picked[a] < picked[b]);
                assert(views[a] == all[picked[a]]);
                assert(views[b] == all[picked[b]]);
            }
        }
        out
    }

    /// The triples of the graph, in the order in which they came in.
    pub fn triples(&self) -> (r: Vec<Triple>)
        requires
            self.wf(),
        ensures
            triple_views(r@) == self.listed(),
            triple_views(r@).to_set() == self@,
            triple_views(r@).no_duplicates(),
    {
        let r = self.select(None, None, None);
        proof {
            lemma_all_match(self.listed());
            assert forall|triple: TripleView|
                triple_views(r@).contains(triple) <==> self@.contains(triple) by {
                assert(triple_matches(
                    triple,
                    subject_option_view(None),
                    predicate_option_view(None),
                    object_option_view(None),
                ));
            }
            assert(triple_views(r@).to_set() =~= self@);
        }
        r
    }

    /// The triples of the graph, to be written into a file.
    pub fn dump(&self) -> (r: Vec<Triple>)
        requires
            self.wf(),
        ensures
            triple_views(r@) == self.listed(),
            triple_views(r@).to_set() == self@,
            triple_views(r@).no_duplicates(),
    {
        self.triples()
    }

    /// The triples of the graph with a subject.
    pub fn triples_for_subject(&self, subject: &Subject) -> (r: Vec<Triple>)
        requires
            self.wf(),
        ensures
            triple_views(r@) == matching_triples(self.listed(), Some(subject@), None, None),
            forall|triple: TripleView|
                triple_views(r@).contains(triple) <==> self@.contains(triple) && triple.subject
                    == subject@,
            triple_views(r@).no_duplicates(),
    {
        let r = self.select(Some(subject), None, None);
        proof {
            assert forall|triple: TripleView|
                triple_views(r@).contains(triple) <==> self@.contains(triple) && triple.subject
                    == subject@ by {
                assert(triple_matches(
                    triple,
                    subject_option_view(Some(subject)),
                    predicate_option_view(None),
                    object_option_view(None),
                ) <==> triple.subject == subject@);
            }
        }
        r
    }

    /// The objects of the triples of the graph with a subject and a
    /// predicate.
    pub fn objects_for_subject_predicate(&self, subject: &Subject, predicate: &NamedNode) -> (r:
        Vec<Term>)
        requires
            self.wf(),
        ensures
            term_views(r@) == objects_of(
                matching_triples(self.listed(), Some(subject@), Some(predicate@), None),
            ),
            forall|object: TermView|
                term_views(r@).contains(object) <==> self@.contains(
                    TripleView { subject: subject@, predicate: predicate@, object },
                ),
            term_views(r@).no_duplicates(),
    {
        let found = self.select(Some(subject), Some(predicate), None);
        proof {
            assert forall|triple: TripleView|
                triple_views(found@).contains(triple) <==> self@.contains(triple) && (triple.subject == subject@ && triple.predicate == predicate@) by {
                assert(triple_matches(
                    triple,
                    subject_option_view(Some(subject)),
                    predicate_option_view(Some(predicate)),
                    object_option_view(None),
                ) <==> (triple.subject == subject@ && triple.predicate == predicate@));
            }
        }
        let mut out: Vec<Term> = Vec::new();
        let mut i: usize = 0;
        while i < found.len()
            invariant
                i <= found@.len(),
                out@.len() == i,
                forall|k: int| 0 <= k < i ==> (#[trigger] out@[k])@ == found@[k]@.object,
            decreases found@.len() - i,
        {
            out.push(found[i].object.duplicate());
            i += 1;
        }
        proof {
            let views = triple_views(found@);
            let objects = term_views(out@);
            assert(objects =~= objects_of(views));
            assert forall|k: int| 0 <= k < views.len() implies (#[trigger] views[k]).subject
                == subject@ && views[k].predicate == predicate@ && views[k].object
                == objects[k] by {
                assert(views.contains(views[k]));
            }
            assert forall|object: TermView|
                objects.contains(object) <==> self@.contains(
                    TripleView { subject: subject@, predicate: predicate@, object },
                ) by {
                let triple = TripleView { subject: subject@, predicate: predicate@, object };
                if objects.contains(object) {
                    let k = choose|k: int| 0 <= k < objects.len() && objects[k] == object;
                    assert(views[k] == triple);
                    assert(views.contains(triple));
                }
                if self@.contains(triple) {
                    assert(views.contains(triple));
                    let k = choose|k: int| 0 <= k < views.len() && views[k] == triple;
                    assert(objects[k] == object);
                }
            }
            assert forall|a: int, b: int| 0 <= a < b < objects.len() implies objects[a]
                != objects[b] by {
                assert(views[a] != views[b]);
            }
        }
        out
    }

    /// One object of the triples of the graph with a subject and a
    /// predicate, if there is such a triple.
    pub fn object_for_subject_predicate(&self, subject: &Subject, predicate: &NamedNode) -> (r:
        Option<Term>)
        requires
            self.wf(),
        ensures
            match r {
                Some(object) => matching_triples(
                    self.listed(),
                    Some(subject@),
                    Some(predicate@),
                    None,
                ).len() > 0 && object@ == matching_triples(
                    self.listed(),
                    Some(subject@),
                    Some(predicate@),
                    None,
                )[0].object,
                None => matching_triples(
                    self.listed(),
                    Some(subject@),
                    Some(predicate@),
                    None,
                ).len() == 0,
            },
            r matches Some(object) ==> self@.contains(
                TripleView { subject: subject@, predicate: predicate@, object: object@ },
            ),
            r is None ==> forall|object: TermView|
                !self@.contains(TripleView { subject: subject@, predicate: predicate@, object }),
    {
        let mut objects = self.objects_for_subject_predicate(subject, predicate);
        let ghost found = matching_triples(self.listed(), Some(subject@), Some(predicate@), None);
        proof {
            assert(term_views(objects@).len() == found.len());
            if found.len() > 0 {
                assert(term_views(objects@)[0] == found[0].object);
                assert(objects@[0]@ == found[0].object);
            }
        }
        if objects.len() == 0 {
            proof {
                assert forall|object: TermView|
                    !self@.contains(
                        TripleView { subject: subject@, predicate: predicate@, object },
                    ) by {
                    assert(!term_views(objects@).contains(object));
                }
            }
            None
        } else {
            proof {
                assert(term_views(objects@).contains(term_views(objects@)[0]));
            }
            Some(objects.swap_remove(0))
        }
    }

    /// The predicates of the triples of the graph with a subject and an
    /// object.
    pub fn predicates_for_subject_object(&self, subject: &Subject, object: &Term) -> (r: Vec<
        NamedNode,
    >)
        requires
            self.wf(),
        ensures
            named_node_views(r@) == predicates_of(
                matching_triples(self.listed(), Some(subject@), None, Some(object@)),
            ),
            forall|predicate: Seq<char>|
                named_node_views(r@).contains(predicate) <==> self@.contains(
                    TripleView { subject: subject@, predicate, object: object@ },
                ),
            named_node_views(r@).no_duplicates(),
    {
        let found = self.select(Some(subject), None, Some(object));
        proof {
            assert forall|triple: TripleView|
                triple_views(found@).contains(triple) <==> self@.contains(triple) && (triple.subject == subject@ && triple.object == object@) by {
                assert(triple_matches(
                    triple,
                    subject_option_view(Some(subject)),
                    predicate_option_view(None),
                    object_option_view(Some(object)),
                ) <==> (triple.subject == subject@ && triple.object == object@));
            }
        }
        let mut out: Vec<NamedNode> = Vec::new();
        let mut i: usize = 0;
        while i < found.len()
            invariant
                i <= found@.len(),
                out@.len() == i,
                forall|k: int| 0 <= k < i ==> (#[trigger] out@[k])@ == found@[k]@.predicate,
            decreases found@.len() - i,
        {
            out.push(found[i].predicate.duplicate());
            i += 1;
        }
        proof {
            let views = triple_views(found@);
            let predicates = named_node_views(out@);
            assert(predicates =~= predicates_of(views));
            assert forall|k: int| 0 <= k < views.len() implies (#[trigger] views[k]).subject
                == subject@ && views[k].object == object@ && views[k].predicate
                == predicates[k] by {
                assert(views.contains(views[k]));
            }
            assert forall|predicate: Seq<char>|
                predicates.contains(predicate) <==> self@.contains(
                    TripleView { subject: subject@, predicate, object: object@ },
                ) by {
                let triple = TripleView { subject: subject@, predicate, object: object@ };
                if predicates.contains(predicate) {
                    let k = choose|k: int| 0 <= k < predicates.len() && predicates[k] == predicate;
                    assert(views[k] == triple);
                    assert(views.contains(triple));
                }
                if self@.contains(triple) {
                    assert(views.contains(triple));
                    let k = choose|k: int| 0 <= k < views.len() && views[k] == triple;
                    assert(predicates[k] == predicate);
                }
            }
            assert forall|a: int, b: int| 0 <= a < b < predicates.len() implies predicates[a]
                != predicates[b] by {
                assert(views[a] != views[b]);
            }
        }
        out
    }

    /// The triples of the graph with a predicate.
    pub fn triples_for_predicate(&self, predicate: &NamedNode) -> (r: Vec<Triple>)
        requires
            self.wf(),
        ensures
            triple_views(r@) == matching_triples(self.listed(), None, Some(predicate@), None),
            forall|triple: TripleView|
                triple_views(r@).contains(triple) <==> self@.contains(triple) && triple.predicate
                    == predicate@,
            triple_views(r@).no_duplicates(),
    {
        let r = self.select(None, Some(predicate), None);
        proof {
            assert forall|triple: TripleView|
                triple_views(r@).contains(triple) <==> self@.contains(triple) && triple.predicate
                    == predicate@ by {
                assert(triple_matches(
                    triple,
                    subject_option_view(None),
                    predicate_option_view(Some(predicate)),
                    object_option_view(None),
                ) <==> triple.predicate == predicate@);
            }
        }
        r
    }

    /// The subjects of the triples of the graph with a predicate and an
    /// object.
    pub fn subjects_for_predicate_object(&self, predicate: &NamedNode, object: &Term) -> (r: Vec<
        Subject,
    >)
        requires
            self.wf(),
        ensures
            subject_views(r@) == subjects_of(
                matching_triples(self.listed(), None, Some(predicate@), Some(object@)),
            ),
            forall|subject: SubjectView|
                subject_views(r@).contains(subject) <==> self@.contains(
                    TripleView { subject, predicate: predicate@, object: object@ },
                ),
            subject_views(r@).no_duplicates(),
    {
        let found = self.select(None, Some(predicate), Some(object));
        proof {
            assert forall|triple: TripleView|
                triple_views(found@).contains(triple) <==> self@.contains(triple) && (triple.predicate == predicate@ && triple.object == object@) by {
                assert(triple_matches(
                    triple,
                    subject_option_view(None),
                    predicate_option_view(Some(predicate)),
                    object_option_view(Some(object)),
                ) <==> (triple.predicate == predicate@ && triple.object == object@));
            }
        }
        let mut out: Vec<Subject> = Vec::new();
        let mut i: usize = 0;
        while i < found.len()
            invariant
                i <= found@.len(),
                out@.len() == i,
                forall|k: int| 0 <= k < i ==> (#[trigger] out@[k])@ == found@[k]@.subject,
            decreases found@.len() - i,
        {
            out.push(found[i].subject.duplicate());
            i += 1;
        }
        proof {
            let views = triple_views(found@);
            let subjects = subject_views(out@);
            assert forall|k: int| 0 <= k < views.len() implies (#[trigger] views[k]).predicate
                == predicate@ && views[k].object == object@ && views[k].subject
                == subjects[k] by {
                assert(views.contains(views[k]));
            }
            assert forall|subject: SubjectView|
                subjects.contains(subject) <==> self@.contains(
                    TripleView { subject, predicate: predicate@, object: object@ },
                ) by {
                let triple = TripleView { subject, predicate: predicate@, object: object@ };
                if subjects.contains(subject) {
                    let k = choose|k: int| 0 <= k < subjects.len() && subjects[k] == subject;
                    assert(views[k] == triple);
                    assert(views.contains(triple));
                }
                if self@.contains(triple) {
                    assert(views.contains(triple));
                    let k = choose|k: int| 0 <= k < views.len() && views[k] == triple;
                    assert(subjects[k] == subject);
                }
            }
            assert forall|a: int, b: int| 0 <= a < b < subjects.len() implies subjects[a]
                != subjects[b] by {
                assert(views[a] != views[b]);
            }
        }
        out
    }

    /// One subject of the triples of the graph with a predicate and an
    /// object, if there is such a triple.
    pub fn subject_for_predicate_object(&self, predicate: &NamedNode, object: &Term) -> (r:
        Option<Subject>)
        requires
            self.wf(),
        ensures
            match r {
                Some(subject) => matching_triples(
                    self.listed(),
                    None,
                    Some(predicate@),
                    Some(object@),
                ).len() > 0 && subject@ == matching_triples(
                    self.listed(),
                    None,
                    Some(predicate@),
                    Some(object@),
                )[0].subject,
                None => matching_triples(
                    self.listed(),
                    None,
                    Some(predicate@),
                    Some(object@),
                ).len() == 0,
            },
            r matches Some(subject) ==> self@.contains(
                TripleView { subject: subject@, predicate: predicate@, object: object@ },
            ),
            r is None ==> forall|subject: SubjectView|
                !self@.contains(TripleView { subject, predicate: predicate@, object: object@ }),
    {
        let mut subjects = self.subjects_for_predicate_object(predicate, object);
        let ghost found = matching_triples(self.listed(), None, Some(predicate@), Some(object@));
        proof {
            assert(subject_views(subjects@).len() == found.len());
            if found.len() > 0 {
                assert(subject_views(subjects@)[0] == found[0].subject);
                assert(subjects@[0]@ == found[0].subject);
            }
        }
        if subjects.len() == 0 {
            proof {
                assert forall|subject: SubjectView|
                    !self@.contains(
                        TripleView { subject, predicate: predicate@, object: object@ },
                    ) by {
                    assert(!subject_views(subjects@).contains(subject));
                }
            }
            None
        } else {
            proof {
                assert(subject_views(subjects@).contains(subject_views(subjects@)[0]));
            }
            Some(subjects.swap_remove(0))
        }
    }

    /// The triples of the graph with an object.
    pub fn triples_for_object(&self, object: &Term) -> (r: Vec<Triple>)
        requires
            self.wf(),
        ensures
            triple_views(r@) == matching_triples(self.listed(), None, None, Some(object@)),
            forall|triple: TripleView|
                triple_views(r@).contains(triple) <==> self@.contains(triple) && triple.object
                    == object@,
            triple_views(r@).no_duplicates(),
    {
        let r = self.select(None, None, Some(object));
        proof {
            assert forall|triple: TripleView|
                triple_views(r@).contains(triple) <==> self@.contains(triple) && triple.object
                    == object@ by {
                assert(triple_matches(
                    triple,
                    subject_option_view(None),
                    predicate_option_view(None),
                    object_option_view(Some(object)),
                ) <==> triple.object == object@);
            }
        }
        r
    }

    /// Whether the graph holds a triple.
    pub fn contains(&self, triple: &Triple) -> (r: bool)
        ensures
            r == self@.contains(triple@),
    {
        self.find(triple).is_some()
    }

    /// The number of triples in the graph.
    pub fn len(&self) -> (r: usize)
        requires
            self.wf(),
        ensures
            r == self.spec_len(),
            r == self@.len(),
            self@.finite(),
    {
        proof {
            triple_views(self.triples@).unique_seq_to_set();
            vstd::seq_lib::seq_to_set_is_finite(triple_views(self.triples@));
        }
        self.triples.len()
    }

    /// Whether the graph holds no triple.
    pub fn is_empty(&self) -> (r: bool)
        ensures
            r == (self@ == Set::<TripleView>::empty()),
    {
        proof {
            let views = triple_views(self.triples@);
            if views.len() > 0 {
                assert(views.contains(views[0]));
                assert(self@.contains(views[0]));
            } else {
                assert(self@ =~= Set::<TripleView>::empty());
            }
        }
        self.triples.len() == 0
    }

    /// Adds a triple to the graph. Nothing changes where the graph holds
    /// it.
    pub fn insert(&mut self, triple: Triple) -> (r: bool)
        requires
            old(self).wf(),
        ensures
            final(self).wf(),
            r == !old(self)@.contains(triple@),
            final(self)@ == old(self)@.insert(triple@),
            final(self).listed() == if r {
                old(self).listed().push(triple@)
            } else {
                old(self).listed()
            },
    {
        if self.find(&triple).is_some() {
            proof {
                assert(self@.insert(triple@) =~= self@);
            }
            return false;
        }
        proof {
            lemma_views_push(self.triples@, triple);
            lemma_push_to_set(triple_views(self.triples@), triple@);
            let views = triple_views(self.triples@);
            let pushed = views.push(triple@);
            assert forall|i: int, j: int| 0 <= i < j < pushed.len() implies pushed[i]
                != pushed[j] by {
                if j == views.len() {
                    assert(views[i] == pushed[i]);
                    assert(views.contains(pushed[i]));
                } else {
                    assert(views[i] == pushed[i] && views[j] == pushed[j]);
                }
            }
        }
        self.triples.push(triple);
        true
    }

    /// Takes a triple out of the graph. Nothing changes where the graph
    /// does not hold it.
    pub fn remove(&mut self, triple: &Triple) -> (r: bool)
        requires
            old(self).wf(),
        ensures
            final(self).wf(),
            r == old(self)@.contains(triple@),
            final(self)@ == old(self)@.remove(triple@),
            r ==> exists|at: int|
                0 <= at < old(self).listed().len() && old(self).listed()[at] == triple@
                    && #[trigger] old(self).listed().remove(at) == final(self).listed(),
            !r ==> final(self).listed() == old(self).listed(),
    {
        match self.find(triple) {
            Some(at) => {
                proof {
                    lemma_views_remove(self.triples@, at as int);
                    lemma_remove_to_set(triple_views(self.triples@), at as int);
                }
                let _ = self.triples.remove(at);
                proof {
                    assert(old(self).listed()[at as int] == triple@);
                    assert(old(self).listed().remove(at as int) == self.listed());
                }
                true
            },
            None => {
                proof {
                    assert(self@.remove(triple@) =~= self@);
                }
                false
            },
        }
    }

    /// Loads into the graph the triples that were read from a file.
    pub fn load(&mut self, triples: Vec<Triple>)
        requires
            old(self).wf(),
        ensures
            final(self).wf(),
            final(self)@ == old(self)@.union(triple_views(triples@).to_set()),
            final(self).listed() == listed_with(old(self).listed(), triple_views(triples@)),
    {
        let mut i: usize = 0;
        proof {
            assert(triple_views(triples@.take(0)) =~= Seq::<TripleView>::empty());
            assert(self@ =~= old(self)@.union(triple_views(triples@.take(0)).to_set()));
        }
        while i < triples.len()
            invariant
                i <= triples@.len(),
                self.wf(),
                self@ == old(self)@.union(triple_views(triples@.take(i as int)).to_set()),
                self.listed() == listed_with(
                    old(self).listed(),
                    triple_views(triples@.take(i as int)),
                ),
            decreases triples@.len() - i,
        {
            proof {
                self.lemma_listed();
            }
            let _ = self.insert(triples[i].duplicate());
            proof {
                let done = triple_views(triples@.take(i as int));
                let next = triple_views(triples@.take(i as int + 1));
                assert(next =~= done.push(triples@[i as int]@));
                assert(next.drop_last() =~= done);
                lemma_push_to_set(done, triples@[i as int]@);
                assert(self@ =~= old(self)@.union(next.to_set()));
            }
            i += 1;
        }
        proof {
            assert(triples@.take(triples@.len() as int) =~= triples@);
        }
    }

    /// Takes every triple out of the graph.
    pub fn clear(&mut self)
        ensures
            final(self).wf(),
            final(self)@ == Set::<TripleView>::empty(),
            final(self).listed() == Seq::<TripleView>::empty(),
            final(self).spec_len() == 0,
    {
        self.triples.clear();
        proof {
            assert(self.listed() =~= Seq::<TripleView>::empty());
            assert(self@ =~= Set::<TripleView>::empty());
        }
    }
}

} // verus!

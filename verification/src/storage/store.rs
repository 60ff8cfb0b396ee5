//! The store: nine indexes over the same quads, the set of named graphs and
//! the string table, read through snapshots and written through
//! transactions.

use crate::model::triple::{GraphName, GraphNameView, Quad, QuadView};
use crate::storage::index::{
    choose_all_graphs_index, choose_default_graph_index, choose_named_graph_index, covers,
    lemma_covered_prefix, make_prefix, IndexOrder, QuadIndex, QuadPattern,
};
use crate::storage::index::pattern_prefix;
use crate::storage::key_index::{chosen, lemma_chosen, KeyIndex};
use crate::storage::numeric_encoder::{
    blank_node_strings, encoded_blank_node, encoded_graph_name, encoded_hashes,
    encoded_named_node, encoded_quad, encoded_subject, encoded_term, insert_blank_node_values,
    insert_named_node_values, insert_subject_values, insert_term_values,
    lemma_table_insert_all_concat, lemma_table_remove_all_concat, named_node_strings,
    remove_term_values, subject_strings, table_insert_all, table_remove_all, term_strings,
    EncodedQuad, EncodedTerm, StrHash, StrLookup, StrRef,
};
use crate::storage::ref_count::{
    count_ok, hashes_of, lemma_count_after_insert_all, lemma_count_after_remove_all,
    lemma_occurrences_concat, lemma_quads_refs_remove, lemma_terms_refs_push,
    lemma_terms_refs_remove, lemma_texts_after_remove_all, occurrences, quad_hashes, quads_refs,
    terms_refs,
};
use crate::storage::round_trip::{
    lemma_blank_node_strings_hashes, lemma_named_node_strings_hashes,
    lemma_subject_strings_hashes, lemma_term_strings_hashes,
};
use crate::seq_sets::{lemma_insert_to_set, lemma_push_to_set, lemma_remove_to_set};
use crate::storage::numeric_encoder::{decoded_quad, decoded_term};
use crate::storage::well_typed::{holds_all, lemma_encoded_quad_ok, lemma_quad_decodes, quad_ok};
use crate::storage::string_store::{table_texts, StrEntryView, StringStore, Unfailing, MAX_COUNT};
use vstd::prelude::*;

verus! {

/// Whether an index holds some quads: as many, and the same.
pub open spec fn same_quads(held: Seq<EncodedQuad>, quads: Seq<EncodedQuad>) -> bool {
    held.len() == quads.len() && held.to_set() == quads.to_set()
}

/// The place of a term in a sequence of terms, if the term stands there.
fn find_term(terms: &Vec<EncodedTerm>, term: &EncodedTerm) -> (r: Option<usize>)
    ensures
        r matches Some(at) ==> at < terms@.len() && terms@[at as int] == *term,
        r is None ==> !terms@.contains(*term),
{
    let mut i: usize = 0;
    while i < terms.len()
        invariant
            i <= terms@.len(),
            forall|j: int| 0 <= j < i ==> terms@[j] != *term,
        decreases terms@.len() - i,
    {
        if terms[i].identical(term) {
            return Some(i);
        }
        i += 1;
    }
    None
}

fn copy_terms(terms: &Vec<EncodedTerm>) -> (r: Vec<EncodedTerm>)
    ensures
        r@ == terms@,
{
    let mut out: Vec<EncodedTerm> = Vec::new();
    let mut i: usize = 0;
    while i < terms.len()
        invariant
            i <= terms@.len(),
            out@ == terms@.take(i as int),
        decreases terms@.len() - i,
    {
        out.push(terms[i].duplicate());
        proof {
            assert(out@ =~= terms@.take(i as int + 1));
        }
        i += 1;
    }
    proof {
        assert(terms@.take(terms@.len() as int) =~= terms@);
    }
    out
}

/// A state of the store, as a snapshot sees it.
pub struct StorageReader {
    id2str: StringStore,
    graphs: Vec<EncodedTerm>,
    dspo: KeyIndex,
    dpos: KeyIndex,
    dosp: KeyIndex,
    spog: KeyIndex,
    posg: KeyIndex,
    ospg: KeyIndex,
    gspo: KeyIndex,
    gpos: KeyIndex,
    gosp: KeyIndex,
}

impl StorageReader {
    /// The quads of the default graph, in the order of their keys.
    pub closed spec fn default_quads(&self) -> Seq<EncodedQuad> {
        self.dspo.quads()
    }

    /// The quads of the named graphs, in the order of their keys.
    pub closed spec fn named_quads(&self) -> Seq<EncodedQuad> {
        self.spog.quads()
    }

    /// The named graphs that the store knows, in the order of their keys.
    pub closed spec fn graph_names(&self) -> Seq<EncodedTerm> {
        self.graphs@
    }

    /// The quads that the store holds.
    pub open spec fn quads(&self) -> Set<EncodedQuad> {
        self.default_quads().to_set().union(self.named_quads().to_set())
    }

    /// The named graphs that the store knows.
    pub open spec fn named_graphs(&self) -> Set<EncodedTerm> {
        self.graph_names().to_set()
    }

    /// The string table.
    pub closed spec fn table(&self) -> Map<u128, StrEntryView> {
        self.id2str@
    }

    /// The quads of an index, in the order of its keys.
    pub closed spec fn index_quads(&self, index: QuadIndex) -> Seq<EncodedQuad> {
        self.family(index).quads()
    }

    /// The keys of an index.
    pub closed spec fn family(&self, index: QuadIndex) -> KeyIndex {
        match index {
            QuadIndex::Dspo => self.dspo,
            QuadIndex::Dpos => self.dpos,
            QuadIndex::Dosp => self.dosp,
            QuadIndex::Spog => self.spog,
            QuadIndex::Posg => self.posg,
            QuadIndex::Ospg => self.ospg,
            QuadIndex::Gspo => self.gspo,
            QuadIndex::Gpos => self.gpos,
            QuadIndex::Gosp => self.gosp,
        }
    }

    /// Every index is in order: its keys stand in their order, none twice,
    /// and each is the key of a quad in the order of that index.
    pub closed spec fn families_wf(&self) -> bool {
        forall|index: QuadIndex|
            (#[trigger] self.family(index)).wf() && self.family(index).which() == index
    }

    /// How often the quads and the graph names of the store refer to an
    /// identifier.
    pub open spec fn references(&self, hash: u128) -> nat {
        quads_refs(hash, self.default_quads()) + quads_refs(hash, self.named_quads()) + terms_refs(
            hash,
            self.graph_names(),
        )
    }

    /// The indexes are in order: every index holds the keys of the same
    /// quads, the three of the default graph those of its quads and the six
    /// others those of the quads of the named graphs, no quad twice, and the
    /// graph of every quad of a named graph is known.
    pub open spec fn indexes_wf(&self) -> bool {
        &&& self.families_wf()
        &&& forall|index: QuadIndex|
            same_quads(
                #[trigger] self.index_quads(index),
                if index.holds_default_graph() {
                    self.default_quads()
                } else {
                    self.named_quads()
                },
            )
        &&& self.default_quads().no_duplicates()
        &&& self.named_quads().no_duplicates()
        &&& self.graph_names().no_duplicates()
        &&& !self.graph_names().contains(EncodedTerm::DefaultGraph)
        &&& forall|i: int|
            0 <= i < self.default_quads().len() ==> (#[trigger] self.default_quads()[i]).graph_name
                == EncodedTerm::DefaultGraph
        &&& forall|i: int|
            0 <= i < self.named_quads().len() ==> self.graph_names().contains(
                (#[trigger] self.named_quads()[i]).graph_name,
            )
        &&& self.quads_ok()
    }

    /// The terms of every quad stand in their places: an IRI, a blank node
    /// or a quoted triple as the subject, an IRI as the predicate, and the
    /// default graph, an IRI or a blank node as the graph.
    pub open spec fn quads_ok(&self) -> bool {
        forall|quad: EncodedQuad| #[trigger] self.quads().contains(quad) ==> quad_ok(quad)
    }

    /// The string table is in order and counts every identifier as often as
    /// the quads and the graph names refer to it.
    pub open spec fn counts_wf(&self) -> bool {
        &&& self.strings_wf()
        &&& forall|hash: u128| count_ok(self.table(), hash, #[trigger] self.references(hash))
    }

    /// The state is in order: its indexes are and its counts are.
    pub open spec fn wf(&self) -> bool {
        self.indexes_wf() && self.counts_wf()
    }

    /// The string table is in order.
    pub closed spec fn strings_wf(&self) -> bool {
        self.id2str.wf()
    }

    /// The state of a store that holds nothing.
    pub fn new() -> (r: Self)
        ensures
            r.wf(),
            r.default_quads() == Seq::<EncodedQuad>::empty(),
            r.named_quads() == Seq::<EncodedQuad>::empty(),
            r.graph_names() == Seq::<EncodedTerm>::empty(),
            r.table() == Map::<u128, StrEntryView>::empty(),
    {
        let r = Self {
            id2str: StringStore::new(),
            graphs: Vec::new(),
            dspo: KeyIndex::new(QuadIndex::Dspo),
            dpos: KeyIndex::new(QuadIndex::Dpos),
            dosp: KeyIndex::new(QuadIndex::Dosp),
            spog: KeyIndex::new(QuadIndex::Spog),
            posg: KeyIndex::new(QuadIndex::Posg),
            ospg: KeyIndex::new(QuadIndex::Ospg),
            gspo: KeyIndex::new(QuadIndex::Gspo),
            gpos: KeyIndex::new(QuadIndex::Gpos),
            gosp: KeyIndex::new(QuadIndex::Gosp),
        };
        proof {
            assert(r.graph_names() =~= Seq::<EncodedTerm>::empty());
            assert forall|index: QuadIndex|
                (#[trigger] r.index_quads(index)) == Seq::<EncodedQuad>::empty() by {}
        }
        r
    }

    fn index(&self, which: QuadIndex) -> (r: &KeyIndex)
        requires
            self.families_wf(),
        ensures
            r.quads() == self.index_quads(which),
            r.which() == which,
            r.wf(),
    {
        proof {
            assert(self.family(which).wf());
        }
        match which {
            QuadIndex::Dspo => &self.dspo,
            QuadIndex::Dpos => &self.dpos,
            QuadIndex::Dosp => &self.dosp,
            QuadIndex::Spog => &self.spog,
            QuadIndex::Posg => &self.posg,
            QuadIndex::Ospg => &self.ospg,
            QuadIndex::Gspo => &self.gspo,
            QuadIndex::Gpos => &self.gpos,
            QuadIndex::Gosp => &self.gosp,
        }
    }

    /// A copy of the state.
    pub fn duplicate(&self) -> (r: Self)
        requires
            self.wf(),
        ensures
            r.wf(),
            r.same_as(self),
            r.default_quads() == self.default_quads(),
            r.named_quads() == self.named_quads(),
            r.graph_names() == self.graph_names(),
            r.table() == self.table(),
    {
        proof {
            assert forall|index: QuadIndex| (#[trigger] self.family(index)).wf() by {}
            assert(self.family(QuadIndex::Dspo).wf());
            assert(self.family(QuadIndex::Dpos).wf());
            assert(self.family(QuadIndex::Dosp).wf());
            assert(self.family(QuadIndex::Spog).wf());
            assert(self.family(QuadIndex::Posg).wf());
            assert(self.family(QuadIndex::Ospg).wf());
            assert(self.family(QuadIndex::Gspo).wf());
            assert(self.family(QuadIndex::Gpos).wf());
            assert(self.family(QuadIndex::Gosp).wf());
        }
        let r = Self {
            id2str: self.id2str.duplicate(),
            graphs: copy_terms(&self.graphs),
            dspo: self.dspo.duplicate(),
            dpos: self.dpos.duplicate(),
            dosp: self.dosp.duplicate(),
            spog: self.spog.duplicate(),
            posg: self.posg.duplicate(),
            ospg: self.ospg.duplicate(),
            gspo: self.gspo.duplicate(),
            gpos: self.gpos.duplicate(),
            gosp: self.gosp.duplicate(),
        };
        proof {
            assert forall|index: QuadIndex|
                #[trigger] r.index_quads(index) == self.index_quads(index) && r.family(index).wf()
                    && r.family(index).which() == index by {
                assert(self.family(index).wf());
            }
            assert forall|index: QuadIndex|
                same_quads(
                    #[trigger] r.index_quads(index),
                    if index.holds_default_graph() {
                        r.default_quads()
                    } else {
                        r.named_quads()
                    },
                ) by {
                assert(same_quads(
                    self.index_quads(index),
                    if index.holds_default_graph() {
                        self.default_quads()
                    } else {
                        self.named_quads()
                    },
                ));
            }
            assert(r.quads() == self.quads());
            assert forall|hash: u128| r.references(hash) == self.references(hash) by {}
            assert forall|hash: u128|
                count_ok(r.table(), hash, #[trigger] r.references(hash)) by {
                assert(count_ok(self.table(), hash, self.references(hash)));
            }
        }
        r
    }

    /// The number of quads in the store, or the greatest number that fits
    /// where there are more.
    pub fn len(&self) -> (r: usize)
        ensures
            r == if self.default_quads().len() + self.named_quads().len() <= usize::MAX {
                self.default_quads().len() + self.named_quads().len()
            } else {
                usize::MAX as nat
            },
    {
        let a = self.dspo.len();
        let b = self.spog.len();
        if a > usize::MAX - b {
            usize::MAX
        } else {
            a + b
        }
    }

    /// Whether the store holds no quad.
    pub fn is_empty(&self) -> (r: bool)
        ensures
            r == (self.quads() == Set::<EncodedQuad>::empty()),
    {
        proof {
            if self.default_quads().len() > 0 {
                assert(self.default_quads().contains(self.default_quads()[0]));
                assert(self.quads().contains(self.default_quads()[0]));
            }
            if self.named_quads().len() > 0 {
                assert(self.named_quads().contains(self.named_quads()[0]));
                assert(self.quads().contains(self.named_quads()[0]));
            }
            if self.default_quads().len() == 0 && self.named_quads().len() == 0 {
                assert(self.quads() =~= Set::<EncodedQuad>::empty());
            }
        }
        self.dspo.is_empty() && self.spog.is_empty()
    }

    /// Whether the store holds a quad.
    pub fn contains(&self, quad: &EncodedQuad) -> (r: bool)
        requires
            self.wf(),
        ensures
            r == self.quads().contains(*quad),
    {
        proof {
            self.lemma_default_membership(*quad);
            self.lemma_named_membership(*quad);
            assert(self.family(QuadIndex::Dspo).wf());
            assert(self.family(QuadIndex::Spog).wf());
        }
        if quad.graph_name.is_default_graph() {
            self.dspo.contains(quad)
        } else {
            self.spog.contains(quad)
        }
    }

    /// The quads of the default graph are in the default graph.
    proof fn lemma_default_membership(&self, quad: EncodedQuad)
        requires
            self.indexes_wf(),
        ensures
            self.default_quads().contains(quad) ==> quad.graph_name == EncodedTerm::DefaultGraph,
    {
    }

    /// The quads of the named graphs are not in the default graph.
    proof fn lemma_named_membership(&self, quad: EncodedQuad)
        requires
            self.indexes_wf(),
        ensures
            self.named_quads().contains(quad) ==> quad.graph_name != EncodedTerm::DefaultGraph,
    {
        let quads = self.named_quads();
        if quads.contains(quad) {
            let i = choose|i: int| 0 <= i < quads.len() && quads[i] == quad;
            assert(self.graph_names().contains(quads[i].graph_name));
        }
    }

    /// An index holds a quad just where the store holds it in the graphs
    /// of the index.
    proof fn lemma_index_membership(&self, index: QuadIndex, quad: EncodedQuad)
        requires
            self.indexes_wf(),
        ensures
            self.index_quads(index).contains(quad) <==> self.quads().contains(quad) && (
            index.holds_default_graph() <==> quad.graph_name == EncodedTerm::DefaultGraph),
    {
        self.lemma_default_membership(quad);
        self.lemma_named_membership(quad);
        let held = self.index_quads(index);
        let quads = if index.holds_default_graph() {
            self.default_quads()
        } else {
            self.named_quads()
        };
        assert(same_quads(held, quads));
        assert(held.to_set().contains(quad) == quads.to_set().contains(quad));
    }

    /// Whether the store knows a named graph.
    pub fn contains_named_graph(&self, graph_name: &EncodedTerm) -> (r: bool)
        ensures
            r == self.named_graphs().contains(*graph_name),
    {
        find_term(&self.graphs, graph_name).is_some()
    }

    /// The named graphs that the store knows.
    pub fn list_named_graphs(&self) -> (r: Vec<EncodedTerm>)
        ensures
            r@ == self.graph_names(),
    {
        copy_terms(&self.graphs)
    }

    /// The quads that a pattern asks for, in the order in which the store
    /// gives them: the index that serves the pattern is chosen by the places
    /// at which the pattern asks for a term, and the quads come in the order
    /// of its keys; without a graph, those of the default graph come first.
    pub open spec fn pattern_quads(&self, pattern: QuadPattern) -> Seq<EncodedQuad> {
        let open = QuadPattern {
            subject: pattern.subject,
            predicate: pattern.predicate,
            object: pattern.object,
            graph_name: None,
        };
        let in_default = crate::storage::index::default_graph_index(
            pattern.subject is Some,
            pattern.predicate is Some,
            pattern.object is Some,
        );
        match pattern.graph_name {
            Some(graph_name) => if graph_name == EncodedTerm::DefaultGraph {
                chosen(
                    self.index_quads(in_default),
                    in_default.order(),
                    pattern_prefix(in_default.order(), open),
                )
            } else {
                let which = crate::storage::index::named_graph_index(
                    pattern.subject is Some,
                    pattern.predicate is Some,
                    pattern.object is Some,
                );
                chosen(self.index_quads(which), which.order(), pattern_prefix(which.order(), pattern))
            },
            None => {
                let which = crate::storage::index::all_graphs_index(
                    pattern.subject is Some,
                    pattern.predicate is Some,
                    pattern.object is Some,
                );
                chosen(
                    self.index_quads(in_default),
                    in_default.order(),
                    pattern_prefix(in_default.order(), pattern),
                ) + chosen(
                    self.index_quads(which),
                    which.order(),
                    pattern_prefix(which.order(), pattern),
                )
            },
        }
    }

    /// The quads that a pattern asks for. The index that serves the pattern
    /// is chosen by the places at which the pattern asks for a term, and the
    /// quads come in the order of its keys; without a graph, those of the
    /// default graph come first.
    pub fn quads_for_pattern(&self, pattern: &QuadPattern) -> (r: Vec<EncodedQuad>)
        requires
            self.wf(),
        ensures
            r@ == self.pattern_quads(*pattern),
            forall|quad: EncodedQuad|
                #![trigger r@.contains(quad)]
                #![trigger self.quads().contains(quad)]
                r@.contains(quad) <==> self.quads().contains(quad) && pattern.matches(quad),
            r@.to_set() == matching(self.quads(), *pattern),
            r@.no_duplicates(),
    {
        let mut out: Vec<EncodedQuad>;
        match &pattern.graph_name {
            Some(graph_name) => {
                if graph_name.is_default_graph() {
                    let which = choose_default_graph_index(pattern);
                    let open = QuadPattern {
                        subject: clone_option(&pattern.subject),
                        predicate: clone_option(&pattern.predicate),
                        object: clone_option(&pattern.object),
                        graph_name: None,
                    };
                    let prefix = make_prefix(which.key_order(), &open);
                    out = self.index(which).scan(&prefix);
                    proof {
                        lemma_chosen(self.index_quads(which), which.order(), prefix@);
                        self.family(which).lemma_quads();
                        assert forall|quad: EncodedQuad|
                            #![trigger out@.contains(quad)]
                            #![trigger self.quads().contains(quad)]
                            out@.contains(quad) <==> self.quads().contains(quad)
                                && pattern.matches(quad) by {
                            lemma_covered_prefix(which.order(), open, quad);
                            self.lemma_index_membership(which, quad);
                        }
                    }
                } else {
                    let which = choose_named_graph_index(pattern);
                    let prefix = make_prefix(which.key_order(), pattern);
                    out = self.index(which).scan(&prefix);
                    proof {
                        lemma_chosen(self.index_quads(which), which.order(), prefix@);
                        self.family(which).lemma_quads();
                        assert forall|quad: EncodedQuad|
                            #![trigger out@.contains(quad)]
                            #![trigger self.quads().contains(quad)]
                            out@.contains(quad) <==> self.quads().contains(quad)
                                && pattern.matches(quad) by {
                            lemma_covered_prefix(which.order(), *pattern, quad);
                            self.lemma_index_membership(which, quad);
                        }
                    }
                }
            },
            None => {
                let first = choose_default_graph_index(pattern);
                let second = choose_all_graphs_index(pattern);
                let first_prefix = make_prefix(first.key_order(), pattern);
                let second_prefix = make_prefix(second.key_order(), pattern);
                out = self.index(first).scan(&first_prefix);
                let mut others = self.index(second).scan(&second_prefix);
                let ghost a = out@;
                let ghost b = others@;
                out.append(&mut others);
                proof {
                    lemma_chosen(self.index_quads(first), first.order(), first_prefix@);
                    lemma_chosen(self.index_quads(second), second.order(), second_prefix@);
                    self.family(first).lemma_quads();
                    self.family(second).lemma_quads();
                    assert(out@ =~= a + b);
                    lemma_default_cover(*pattern);
                    assert forall|quad: EncodedQuad|
                        #![trigger out@.contains(quad)]
                        #![trigger self.quads().contains(quad)]
                        out@.contains(quad) <==> self.quads().contains(quad) && pattern.matches(
                            quad,
                        ) by {
                        lemma_covered_prefix(first.order(), *pattern, quad);
                        lemma_covered_prefix(second.order(), *pattern, quad);
                        self.lemma_index_membership(first, quad);
                        self.lemma_index_membership(second, quad);
                        lemma_concat_contains(a, b, quad);
                    }
                    assert forall|i: int, j: int| 0 <= i < j < out@.len() implies out@[i]
                        != out@[j] by {
                        if j < a.len() {
                            assert(a[i] == out@[i] && a[j] == out@[j]);
                        } else if i >= a.len() {
                            assert(b[i - a.len()] == out@[i] && b[j - a.len()] == out@[j]);
                        } else {
                            assert(a[i] == out@[i]);
                            assert(b[j - a.len()] == out@[j]);
                            assert(a.contains(out@[i]));
                            assert(b.contains(out@[j]));
                            self.lemma_index_membership(first, out@[i]);
                            self.lemma_index_membership(second, out@[j]);
                        }
                    }
                }
            },
        }
        proof {
            assert(out@.to_set() =~= matching(self.quads(), *pattern));
        }
        out
    }

    /// Every quad in the store, those of the default graph first.
    pub fn all_quads(&self) -> (r: Vec<EncodedQuad>)
        requires
            self.wf(),
        ensures
            r@ == self.pattern_quads(
                (QuadPattern { subject: None, predicate: None, object: None, graph_name: None }),
            ),
            forall|quad: EncodedQuad|
                #![trigger r@.contains(quad)]
                #![trigger self.quads().contains(quad)]
                r@.contains(quad) <==> self.quads().contains(quad),
            r@.no_duplicates(),
    {
        let pattern = QuadPattern { subject: None, predicate: None, object: None, graph_name: None };
        let r = self.quads_for_pattern(&pattern);
        proof {
            assert forall|quad: EncodedQuad| r@.contains(quad) <==> self.quads().contains(
                quad,
            ) by {
                assert(pattern.matches(quad));
            }
        }
        r
    }

    /// The quads of one graph.
    pub fn quads_for_graph(&self, graph_name: &EncodedTerm) -> (r: Vec<EncodedQuad>)
        requires
            self.wf(),
        ensures
            r@ == self.pattern_quads(
                (QuadPattern {
                    subject: None,
                    predicate: None,
                    object: None,
                    graph_name: Some(*graph_name),
                }),
            ),
            forall|quad: EncodedQuad|
                #![trigger r@.contains(quad)]
                #![trigger self.quads().contains(quad)]
                r@.contains(quad) <==> self.quads().contains(quad) && quad.graph_name
                    == *graph_name,
            r@.no_duplicates(),
    {
        let pattern = QuadPattern {
            subject: None,
            predicate: None,
            object: None,
            graph_name: Some(graph_name.duplicate()),
        };
        let r = self.quads_for_pattern(&pattern);
        proof {
            assert forall|quad: EncodedQuad|
                r@.contains(quad) <==> self.quads().contains(quad) && quad.graph_name
                    == *graph_name by {
                assert(pattern.matches(quad) <==> quad.graph_name == *graph_name);
            }
        }
        r
    }

    /// The quads of the named graphs.
    pub fn quads_in_named_graph(&self) -> (r: Vec<EncodedQuad>)
        requires
            self.wf(),
        ensures
            r@ == self.index_quads(QuadIndex::Gspo),
            forall|quad: EncodedQuad|
                #![trigger r@.contains(quad)]
                #![trigger self.quads().contains(quad)]
                r@.contains(quad) <==> self.quads().contains(quad) && quad.graph_name
                    != EncodedTerm::DefaultGraph,
            r@.no_duplicates(),
    {
        let prefix: Vec<EncodedTerm> = Vec::new();
        let out = self.index(QuadIndex::Gspo).scan(&prefix);
        proof {
            lemma_chosen(self.index_quads(QuadIndex::Gspo), IndexOrder::Gspo, prefix@);
            assert(prefix@ =~= Seq::<EncodedTerm>::empty());
            lemma_chosen_all(self.index_quads(QuadIndex::Gspo), IndexOrder::Gspo);
            self.family(QuadIndex::Gspo).lemma_quads();
            assert forall|quad: EncodedQuad|
                out@.contains(quad) <==> self.quads().contains(quad) && quad.graph_name
                    != EncodedTerm::DefaultGraph by {
                self.lemma_index_membership(QuadIndex::Gspo, quad);
            }
        }
        out
    }
}

/// Where no term is asked for, every quad is chosen.
proof fn lemma_chosen_all(quads: Seq<EncodedQuad>, order: IndexOrder)
    ensures
        chosen(quads, order, Seq::empty()) == quads,
    decreases quads.len(),
{
    if quads.len() > 0 {
        lemma_chosen_all(quads.drop_last(), order);
        assert(crate::storage::index::key_of(order, quads.last()).has_prefix(Seq::empty()));
        assert(quads.drop_last().push(quads.last()) =~= quads);
    }
}

fn clone_option(term: &Option<EncodedTerm>) -> (r: Option<EncodedTerm>)
    ensures
        r == *term,
{
    match term {
        Some(term) => Some(term.duplicate()),
        None => None,
    }
}

proof fn lemma_concat_contains(a: Seq<EncodedQuad>, b: Seq<EncodedQuad>, quad: EncodedQuad)
    ensures
        (a + b).contains(quad) <==> a.contains(quad) || b.contains(quad),
{
    if (a + b).contains(quad) {
        let i = choose|i: int| 0 <= i < (a + b).len() && (a + b)[i] == quad;
        if i < a.len() {
            assert(a[i] == quad);
        } else {
            assert(b[i - a.len()] == quad);
        }
    }
    if a.contains(quad) {
        let i = choose|i: int| 0 <= i < a.len() && a[i] == quad;
        assert((a + b)[i] == quad);
    }
    if b.contains(quad) {
        let i = choose|i: int| 0 <= i < b.len() && b[i] == quad;
        assert((a + b)[a.len() + i] == quad);
    }
}

/// The index chosen for the default graph covers a pattern without a
/// graph.
proof fn lemma_default_cover(pattern: QuadPattern)
    requires
        pattern.graph_name is None,
    ensures
        covers(
            default_graph_index_of(pattern).order(),
            pattern,
        ),
{
}

spec fn default_graph_index_of(pattern: QuadPattern) -> QuadIndex {
    crate::storage::index::default_graph_index(
        pattern.subject is Some,
        pattern.predicate is Some,
        pattern.object is Some,
    )
}

/// The texts that are interned for the subject, the predicate and the
/// object of a quad.
pub open spec fn quad_strings(quad: QuadView) -> Seq<StrRef> {
    subject_strings(quad.subject, encoded_subject(quad.subject)) + named_node_strings(
        quad.predicate,
        encoded_named_node(quad.predicate),
    ) + term_strings(quad.object, encoded_term(quad.object))
}

/// The texts that are interned for the name of a graph.
pub open spec fn graph_name_strings(name: GraphNameView) -> Seq<StrRef> {
    match name {
        GraphNameView::NamedNode(iri) => named_node_strings(iri, encoded_named_node(iri)),
        GraphNameView::BlankNode(node) => blank_node_strings(node, encoded_blank_node(node)),
        GraphNameView::DefaultGraph => Seq::empty(),
    }
}

/// The references that are interned for a quad are those that its encoding
/// holds.
pub proof fn lemma_quad_strings_hashes(quad: QuadView)
    ensures
        hashes_of(quad_strings(quad)) == quad_hashes(encoded_quad(quad)),
{
    lemma_subject_strings_hashes(quad.subject);
    lemma_named_node_strings_hashes(quad.predicate);
    lemma_term_strings_hashes(quad.object);
    assert(hashes_of(quad_strings(quad)) =~= quad_hashes(encoded_quad(quad)));
}

/// The references that are interned for a graph name are those that its
/// encoding holds.
pub proof fn lemma_graph_name_strings_hashes(name: GraphNameView)
    ensures
        hashes_of(graph_name_strings(name)) == encoded_hashes(encoded_graph_name(name)),
{
    match name {
        GraphNameView::NamedNode(iri) => lemma_named_node_strings_hashes(iri),
        GraphNameView::BlankNode(node) => lemma_blank_node_strings_hashes(node),
        GraphNameView::DefaultGraph => {
            assert(hashes_of(graph_name_strings(name)) =~= Seq::<u128>::empty());
        },
    }
}

/// The quads of an index after a quad that it did not hold was put in.
proof fn lemma_index_after_insert(
    before: Seq<EncodedQuad>,
    after: Seq<EncodedQuad>,
    quad: EncodedQuad,
)
    requires
        before.no_duplicates(),
        !before.contains(quad),
        exists|at: int| 0 <= at <= before.len() && #[trigger] before.insert(at, quad) == after,
    ensures
        after.len() == before.len() + 1,
        after.to_set() == before.to_set().insert(quad),
        after.no_duplicates(),
        forall|hash: u128|
            #[trigger] quads_refs(hash, after) == quads_refs(hash, before) + occurrences(
                hash,
                quad_hashes(quad),
            ),
{
    let at = choose|at: int| 0 <= at <= before.len() && #[trigger] before.insert(at, quad) == after;
    lemma_insert_to_set(before, at, quad);
    assert(after.remove(at) =~= before);
    assert(after[at] == quad);
    assert forall|hash: u128|
        #[trigger] quads_refs(hash, after) == quads_refs(hash, before) + occurrences(
            hash,
            quad_hashes(quad),
        ) by {
        lemma_quads_refs_remove(hash, after, at);
    }
}

/// The quads of an index after a quad that it held was taken out.
proof fn lemma_index_after_remove(
    before: Seq<EncodedQuad>,
    after: Seq<EncodedQuad>,
    quad: EncodedQuad,
)
    requires
        before.no_duplicates(),
        exists|at: int|
            0 <= at < before.len() && before[at] == quad && #[trigger] before.remove(at) == after,
    ensures
        after.len() == before.len() - 1,
        after.to_set() == before.to_set().remove(quad),
        after.no_duplicates(),
        forall|hash: u128|
            #[trigger] quads_refs(hash, before) == quads_refs(hash, after) + occurrences(
                hash,
                quad_hashes(quad),
            ),
{
    let at = choose|at: int|
        0 <= at < before.len() && before[at] == quad && #[trigger] before.remove(at) == after;
    lemma_remove_to_set(before, at);
    assert forall|hash: u128|
        #[trigger] quads_refs(hash, before) == quads_refs(hash, after) + occurrences(
            hash,
            quad_hashes(quad),
        ) by {
        lemma_quads_refs_remove(hash, before, at);
    }
}

impl StorageReader {
    /// Every index is in order.
    proof fn lemma_families(&self)
        requires
            self.families_wf(),
        ensures
            self.dspo.wf() && self.dspo.which() == QuadIndex::Dspo,
            self.dpos.wf() && self.dpos.which() == QuadIndex::Dpos,
            self.dosp.wf() && self.dosp.which() == QuadIndex::Dosp,
            self.spog.wf() && self.spog.which() == QuadIndex::Spog,
            self.posg.wf() && self.posg.which() == QuadIndex::Posg,
            self.ospg.wf() && self.ospg.which() == QuadIndex::Ospg,
            self.gspo.wf() && self.gspo.which() == QuadIndex::Gspo,
            self.gpos.wf() && self.gpos.which() == QuadIndex::Gpos,
            self.gosp.wf() && self.gosp.which() == QuadIndex::Gosp,
    {
        assert(self.family(QuadIndex::Dspo).wf());
        assert(self.family(QuadIndex::Dpos).wf());
        assert(self.family(QuadIndex::Dosp).wf());
        assert(self.family(QuadIndex::Spog).wf());
        assert(self.family(QuadIndex::Posg).wf());
        assert(self.family(QuadIndex::Ospg).wf());
        assert(self.family(QuadIndex::Gspo).wf());
        assert(self.family(QuadIndex::Gpos).wf());
        assert(self.family(QuadIndex::Gosp).wf());
    }

    /// Writes the keys of a quad that the store does not hold into the
    /// indexes of its graph.
    fn push_quad(&mut self, quad: &EncodedQuad)
        requires
            old(self).indexes_wf(),
            quad_ok(*quad),
            !old(self).quads().contains(*quad),
            quad.graph_name != EncodedTerm::DefaultGraph ==> old(self).graph_names().contains(
                quad.graph_name,
            ),
        ensures
            final(self).indexes_wf(),
            final(self).id2str == old(self).id2str,
            final(self).graph_names() == old(self).graph_names(),
            final(self).quads() == old(self).quads().insert(*quad),
            forall|hash: u128|
                #[trigger] final(self).references(hash) == old(self).references(hash)
                    + occurrences(hash, quad_hashes(*quad)),
    {
        proof {
            self.lemma_families();
            assert forall|index: QuadIndex|
                !(#[trigger] self.index_quads(index)).contains(*quad)
                    && self.index_quads(index).no_duplicates() by {
                self.lemma_index_membership(index, *quad);
                self.family(index).lemma_quads();
            }
        }
        let ghost before = *self;
        if quad.graph_name.is_default_graph() {
            let _ = self.dspo.insert(quad);
            let _ = self.dpos.insert(quad);
            let _ = self.dosp.insert(quad);
            proof {
                assert forall|index: QuadIndex|
                    (#[trigger] self.family(index)).wf() && self.family(index).which()
                        == index by {
                    assert(before.family(index).wf());
                }
                assert forall|index: QuadIndex|
                    same_quads(
                        #[trigger] self.index_quads(index),
                        if index.holds_default_graph() {
                            self.default_quads()
                        } else {
                            self.named_quads()
                        },
                    ) by {
                    assert(same_quads(
                        before.index_quads(index),
                        if index.holds_default_graph() {
                            before.default_quads()
                        } else {
                            before.named_quads()
                        },
                    ));
                    lemma_index_after_insert(
                        before.default_quads(),
                        self.default_quads(),
                        *quad,
                    );
                    if index.holds_default_graph() {
                        assert(!before.index_quads(index).contains(*quad));
                        assert(before.index_quads(index).no_duplicates());
                        lemma_index_after_insert(
                            before.index_quads(index),
                            self.index_quads(index),
                            *quad,
                        );
                    }
                }
                lemma_index_after_insert(before.default_quads(), self.default_quads(), *quad);
                assert(self.quads() =~= before.quads().insert(*quad));
                let at = choose|at: int|
                    0 <= at <= before.default_quads().len()
                        && #[trigger] before.default_quads().insert(at, *quad)
                        == self.default_quads();
                assert forall|i: int| 0 <= i < self.default_quads().len() implies (
                #[trigger] self.default_quads()[i]).graph_name == EncodedTerm::DefaultGraph by {
                    if i < at {
                        assert(self.default_quads()[i] == before.default_quads()[i]);
                    } else if i > at {
                        assert(self.default_quads()[i] == before.default_quads()[i - 1]);
                    }
                }
            }
        } else {
            let _ = self.spog.insert(quad);
            let _ = self.posg.insert(quad);
            let _ = self.ospg.insert(quad);
            let _ = self.gspo.insert(quad);
            let _ = self.gpos.insert(quad);
            let _ = self.gosp.insert(quad);
            proof {
                assert forall|index: QuadIndex|
                    (#[trigger] self.family(index)).wf() && self.family(index).which()
                        == index by {
                    assert(before.family(index).wf());
                }
                assert forall|index: QuadIndex|
                    same_quads(
                        #[trigger] self.index_quads(index),
                        if index.holds_default_graph() {
                            self.default_quads()
                        } else {
                            self.named_quads()
                        },
                    ) by {
                    assert(same_quads(
                        before.index_quads(index),
                        if index.holds_default_graph() {
                            before.default_quads()
                        } else {
                            before.named_quads()
                        },
                    ));
                    lemma_index_after_insert(before.named_quads(), self.named_quads(), *quad);
                    if !index.holds_default_graph() {
                        assert(!before.index_quads(index).contains(*quad));
                        assert(before.index_quads(index).no_duplicates());
                        lemma_index_after_insert(
                            before.index_quads(index),
                            self.index_quads(index),
                            *quad,
                        );
                    }
                }
                lemma_index_after_insert(before.named_quads(), self.named_quads(), *quad);
                assert(self.quads() =~= before.quads().insert(*quad));
                let at = choose|at: int|
                    0 <= at <= before.named_quads().len()
                        && #[trigger] before.named_quads().insert(at, *quad)
                        == self.named_quads();
                assert forall|i: int| 0 <= i < self.named_quads().len() implies self.graph_names(
                ).contains((#[trigger] self.named_quads()[i]).graph_name) by {
                    if i < at {
                        assert(self.named_quads()[i] == before.named_quads()[i]);
                    } else if i > at {
                        assert(self.named_quads()[i] == before.named_quads()[i - 1]);
                    }
                }
            }
        }
    }

    /// Takes the keys of a quad that the store holds out of the indexes of
    /// its graph.
    fn remove_quad(&mut self, quad: &EncodedQuad)
        requires
            old(self).indexes_wf(),
            old(self).quads().contains(*quad),
        ensures
            final(self).indexes_wf(),
            final(self).id2str == old(self).id2str,
            final(self).graph_names() == old(self).graph_names(),
            final(self).quads() == old(self).quads().remove(*quad),
            forall|hash: u128|
                #[trigger] old(self).references(hash) == final(self).references(hash)
                    + occurrences(hash, quad_hashes(*quad)),
    {
        proof {
            self.lemma_families();
            self.lemma_default_membership(*quad);
            self.lemma_named_membership(*quad);
            assert forall|index: QuadIndex|
                (#[trigger] self.index_quads(index)).no_duplicates() && (
                self.index_quads(index).contains(*quad) <==> (index.holds_default_graph()
                    <==> quad.graph_name == EncodedTerm::DefaultGraph)) by {
                self.lemma_index_membership(index, *quad);
                self.family(index).lemma_quads();
            }
        }
        let ghost before = *self;
        if quad.graph_name.is_default_graph() {
            let _ = self.dspo.remove(quad);
            let _ = self.dpos.remove(quad);
            let _ = self.dosp.remove(quad);
            proof {
                assert forall|index: QuadIndex|
                    (#[trigger] self.family(index)).wf() && self.family(index).which()
                        == index by {
                    assert(before.family(index).wf());
                }
                assert forall|index: QuadIndex|
                    same_quads(
                        #[trigger] self.index_quads(index),
                        if index.holds_default_graph() {
                            self.default_quads()
                        } else {
                            self.named_quads()
                        },
                    ) by {
                    assert(same_quads(
                        before.index_quads(index),
                        if index.holds_default_graph() {
                            before.default_quads()
                        } else {
                            before.named_quads()
                        },
                    ));
                    lemma_index_after_remove(
                        before.default_quads(),
                        self.default_quads(),
                        *quad,
                    );
                    if index.holds_default_graph() {
                        assert(before.index_quads(index).contains(*quad));
                        assert(before.index_quads(index).no_duplicates());
                        lemma_index_after_remove(
                            before.index_quads(index),
                            self.index_quads(index),
                            *quad,
                        );
                    }
                }
                lemma_index_after_remove(before.default_quads(), self.default_quads(), *quad);
                assert(!before.named_quads().contains(*quad));
                assert(self.quads() =~= before.quads().remove(*quad));
                assert forall|i: int| 0 <= i < self.default_quads().len() implies (
                #[trigger] self.default_quads()[i]).graph_name == EncodedTerm::DefaultGraph by {
                    let kept = self.default_quads()[i];
                    assert(self.default_quads().contains(kept));
                    assert(self.default_quads().to_set().contains(kept));
                    assert(before.default_quads().to_set().contains(kept));
                    assert(before.default_quads().contains(kept));
                }
            }
        } else {
            let _ = self.spog.remove(quad);
            let _ = self.posg.remove(quad);
            let _ = self.ospg.remove(quad);
            let _ = self.gspo.remove(quad);
            let _ = self.gpos.remove(quad);
            let _ = self.gosp.remove(quad);
            proof {
                assert forall|index: QuadIndex|
                    (#[trigger] self.family(index)).wf() && self.family(index).which()
                        == index by {
                    assert(before.family(index).wf());
                }
                assert forall|index: QuadIndex|
                    same_quads(
                        #[trigger] self.index_quads(index),
                        if index.holds_default_graph() {
                            self.default_quads()
                        } else {
                            self.named_quads()
                        },
                    ) by {
                    assert(same_quads(
                        before.index_quads(index),
                        if index.holds_default_graph() {
                            before.default_quads()
                        } else {
                            before.named_quads()
                        },
                    ));
                    lemma_index_after_remove(before.named_quads(), self.named_quads(), *quad);
                    if !index.holds_default_graph() {
                        assert(before.index_quads(index).contains(*quad));
                        assert(before.index_quads(index).no_duplicates());
                        lemma_index_after_remove(
                            before.index_quads(index),
                            self.index_quads(index),
                            *quad,
                        );
                    }
                }
                lemma_index_after_remove(before.named_quads(), self.named_quads(), *quad);
                assert(!before.default_quads().contains(*quad));
                assert(self.quads() =~= before.quads().remove(*quad));
                assert forall|i: int| 0 <= i < self.named_quads().len() implies self.graph_names(
                ).contains((#[trigger] self.named_quads()[i]).graph_name) by {
                    let kept = self.named_quads()[i];
                    assert(self.named_quads().contains(kept));
                    assert(self.named_quads().to_set().contains(kept));
                    assert(before.named_quads().to_set().contains(kept));
                    assert(before.named_quads().contains(kept));
                    let k = choose|k: int|
                        0 <= k < before.named_quads().len() && before.named_quads()[k] == kept;
                    assert(before.graph_names().contains(before.named_quads()[k].graph_name));
                }
            }
        }
    }
}

/// A transaction: a state of the store that is being written, and becomes
/// the state of the store when it is committed.
pub struct StorageWriter {
    state: StorageReader,
    base: u64,
}

impl View for StorageWriter {
    type V = StorageReader;

    closed spec fn view(&self) -> StorageReader {
        self.state
    }
}

/// Whether a table is another with references taken away: it holds no
/// entry that the other did not hold, every text as the other held it and
/// no count above the other's, and every entry whose count was at the limit
/// as it was.
pub open spec fn texts_kept(after: Map<u128, StrEntryView>, before: Map<u128, StrEntryView>) -> bool {
    forall|hash: u128|
        #![trigger after.contains_key(hash)]
        #![trigger before.contains_key(hash)]
        (after.contains_key(hash) ==> before.contains_key(hash) && after[hash].text
            == before[hash].text && after[hash].count <= before[hash].count) && (
        before.contains_key(hash) && before[hash].count >= MAX_COUNT ==> after.contains_key(hash)
            && after[hash] == before[hash])
}

impl StorageWriter {
    /// The version of the store from which the transaction started.
    pub closed spec fn base_version(&self) -> u64 {
        self.base
    }

    /// The state as the transaction sees it, with what it has written.
    pub fn reader(&self) -> (r: &StorageReader)
        ensures
            *r == self@,
    {
        &self.state
    }

    /// Adds a quad to the store: writes its keys into every index of its
    /// graph, interns the texts that its subject, predicate and object refer
    /// to, and makes its graph known, interning the name of a graph that was
    /// not. Nothing changes where the store holds the quad.
    pub fn insert(&mut self, quad: &Quad) -> (r: bool)
        requires
            old(self)@.wf(),
        ensures
            final(self)@.wf(),
            final(self).base_version() == old(self).base_version(),
            r == !old(self)@.quads().contains(encoded_quad(quad@)),
            final(self)@.quads() == quads_after_insert(old(self)@.quads(), quad@),
            final(self)@.named_graphs() == if quad@.graph_name is DefaultGraph {
                old(self)@.named_graphs()
            } else {
                old(self)@.named_graphs().insert(encoded_graph_name(quad@.graph_name))
            },
            final(self)@.table() == if !r {
                old(self)@.table()
            } else if old(self)@.named_graphs().contains(encoded_graph_name(quad@.graph_name))
                || quad@.graph_name is DefaultGraph {
                table_insert_all(old(self)@.table(), quad_strings(quad@))
            } else {
                table_insert_all(
                    old(self)@.table(),
                    quad_strings(quad@) + graph_name_strings(quad@.graph_name),
                )
            },
    {
        let encoded = EncodedQuad::from_quad(quad);
        let ghost before = self.state;
        proof {
            lemma_encoded_quad_ok(quad@);
        }
        if self.state.contains(&encoded) {
            proof {
                assert(self.state.quads().insert(encoded) =~= self.state.quads());
                if !(quad@.graph_name is DefaultGraph) {
                    self.state.lemma_named_membership(encoded);
                    self.state.lemma_default_membership(encoded);
                    let i = choose|i: int|
                        0 <= i < self.state.named_quads().len() && self.state.named_quads()[i]
                            == encoded;
                    assert(self.state.graph_names().contains(
                        self.state.named_quads()[i].graph_name,
                    ));
                    assert(self.state.named_graphs().insert(encoded.graph_name)
                        =~= self.state.named_graphs());
                }
            }
            return false;
        }
        let graph_is_new = !encoded.graph_name.is_default_graph() && find_term(
            &self.state.graphs,
            &encoded.graph_name,
        ).is_none();
        if graph_is_new {
            self.state.graphs.push(encoded.graph_name.duplicate());
        }
        let ghost with_graph = self.state;
        proof {
            if graph_is_new {
                lemma_push_to_set(before.graph_names(), encoded.graph_name);
                with_graph.lemma_same_families(&before);
                assert(with_graph.graph_names() =~= before.graph_names().push(
                    encoded.graph_name,
                ));
                assert forall|i: int| 0 <= i < with_graph.named_quads().len() implies 
                    with_graph.graph_names().contains(
                    (#[trigger] with_graph.named_quads()[i]).graph_name,
                ) by {
                    let name = before.named_quads()[i].graph_name;
                    assert(before.graph_names().contains(name));
                    let j = choose|j: int|
                        0 <= j < before.graph_names().len() && before.graph_names()[j] == name;
                    assert(with_graph.graph_names()[j] == name);
                }
                assert(with_graph.graph_names().contains(encoded.graph_name)) by {
                    assert(with_graph.graph_names()[before.graph_names().len() as int]
                        == encoded.graph_name);
                }
                assert(!with_graph.graph_names().contains(EncodedTerm::DefaultGraph)) by {
                    if with_graph.graph_names().contains(EncodedTerm::DefaultGraph) {
                        let j = choose|j: int|
                            0 <= j < with_graph.graph_names().len() && with_graph.graph_names()[j]
                                == EncodedTerm::DefaultGraph;
                        if j < before.graph_names().len() {
                            assert(before.graph_names()[j] == EncodedTerm::DefaultGraph);
                        }
                    }
                }
            } else {
                assert(with_graph.named_graphs().insert(encoded.graph_name)
                    =~= with_graph.named_graphs() || quad@.graph_name is DefaultGraph);
            }
            assert(with_graph.quads() =~= before.quads());
        }
        self.state.push_quad(&encoded);
        let ghost with_quad = self.state;
        insert_subject_values(&quad.subject, &encoded.subject, &mut self.state.id2str);
        insert_named_node_values(&quad.predicate, &encoded.predicate, &mut self.state.id2str);
        insert_term_values(&quad.object, &encoded.object, &mut self.state.id2str);
        if graph_is_new {
            match &quad.graph_name {
                GraphName::NamedNode(node) => insert_named_node_values(
                    node,
                    &encoded.graph_name,
                    &mut self.state.id2str,
                ),
                GraphName::BlankNode(node) => insert_blank_node_values(
                    node,
                    &encoded.graph_name,
                    &mut self.state.id2str,
                ),
                GraphName::DefaultGraph => {},
            }
        }
        proof {
            let a = subject_strings(quad@.subject, encoded.subject);
            let b = named_node_strings(quad@.predicate, encoded.predicate);
            let c = term_strings(quad@.object, encoded.object);
            let g = graph_name_strings(quad@.graph_name);
            let table = before.table();
            lemma_table_insert_all_concat(table, a, b);
            lemma_table_insert_all_concat(table, a + b, c);
            let added = if graph_is_new {
                quad_strings(quad@) + g
            } else {
                quad_strings(quad@)
            };
            if graph_is_new {
                lemma_table_insert_all_concat(table, a + b + c, g);
            }
            assert(self.state.table() == table_insert_all(table, added));
            self.state.lemma_same_families(&with_quad);
            lemma_quad_strings_hashes(quad@);
            lemma_graph_name_strings_hashes(quad@.graph_name);
            assert(hashes_of(quad_strings(quad@) + g) =~= hashes_of(quad_strings(quad@))
                + hashes_of(g));
            assert(self.state.quads() =~= before.quads().insert(encoded));
            assert forall|stored: EncodedQuad| #[trigger]
                self.state.quads().contains(stored) implies quad_ok(stored) by {
                if stored != encoded {
                    assert(before.quads().contains(stored));
                }
            }
            assert forall|hash: u128|
                count_ok(self.state.table(), hash, #[trigger] self.state.references(hash)) by {
                assert(count_ok(table, hash, before.references(hash)));
                lemma_count_after_insert_all(table, added, hash, before.references(hash));
                assert(with_quad.references(hash) == with_graph.references(hash) + occurrences(
                    hash,
                    quad_hashes(encoded),
                ));
                lemma_terms_refs_push(hash, before.graph_names(), encoded.graph_name);
                lemma_occurrences_concat(hash, hashes_of(quad_strings(quad@)), hashes_of(g));
            }
        }
        true
    }

    /// Makes a named graph known to the store and interns its name. Nothing
    /// changes where the graph is known, or for the default graph.
    pub fn insert_named_graph(&mut self, graph_name: &GraphName) -> (r: bool)
        requires
            old(self)@.wf(),
        ensures
            final(self)@.wf(),
            final(self).base_version() == old(self).base_version(),
            r == (!(graph_name@ is DefaultGraph) && !old(self)@.named_graphs().contains(
                encoded_graph_name(graph_name@),
            )),
            final(self)@.quads() == old(self)@.quads(),
            final(self)@.named_graphs() == if graph_name@ is DefaultGraph {
                old(self)@.named_graphs()
            } else {
                old(self)@.named_graphs().insert(encoded_graph_name(graph_name@))
            },
            final(self)@.table() == if r {
                table_insert_all(old(self)@.table(), graph_name_strings(graph_name@))
            } else {
                old(self)@.table()
            },
    {
        let encoded = EncodedTerm::from_graph_name(graph_name);
        let ghost before = self.state;
        if encoded.is_default_graph() {
            return false;
        }
        if find_term(&self.state.graphs, &encoded).is_some() {
            proof {
                assert(before.named_graphs().insert(encoded) =~= before.named_graphs());
            }
            return false;
        }
        self.state.graphs.push(encoded.duplicate());
        match graph_name {
            GraphName::NamedNode(node) => insert_named_node_values(
                node,
                &encoded,
                &mut self.state.id2str,
            ),
            GraphName::BlankNode(node) => insert_blank_node_values(
                node,
                &encoded,
                &mut self.state.id2str,
            ),
            GraphName::DefaultGraph => {},
        }
        proof {
            let g = graph_name_strings(graph_name@);
            lemma_push_to_set(before.graph_names(), encoded);
            self.state.lemma_same_families(&before);
            assert(self.state.graph_names() =~= before.graph_names().push(encoded));
            assert forall|i: int| 0 <= i < self.state.named_quads().len() implies 
                self.state.graph_names().contains(
                (#[trigger] self.state.named_quads()[i]).graph_name,
            ) by {
                let name = before.named_quads()[i].graph_name;
                assert(before.graph_names().contains(name));
                let j = choose|j: int|
                    0 <= j < before.graph_names().len() && before.graph_names()[j] == name;
                assert(self.state.graph_names()[j] == name);
            }
            assert(!self.state.graph_names().contains(EncodedTerm::DefaultGraph)) by {
                if self.state.graph_names().contains(EncodedTerm::DefaultGraph) {
                    let j = choose|j: int|
                        0 <= j < self.state.graph_names().len() && self.state.graph_names()[j]
                            == EncodedTerm::DefaultGraph;
                    if j < before.graph_names().len() {
                        assert(before.graph_names()[j] == EncodedTerm::DefaultGraph);
                    }
                }
            }
            lemma_graph_name_strings_hashes(graph_name@);
            assert forall|hash: u128|
                count_ok(self.state.table(), hash, #[trigger] self.state.references(hash)) by {
                assert(count_ok(before.table(), hash, before.references(hash)));
                lemma_count_after_insert_all(before.table(), g, hash, before.references(hash));
                lemma_terms_refs_push(hash, before.graph_names(), encoded);
            }
        }
        true
    }

    /// Takes a quad out of the store: its keys leave every index of its
    /// graph, and the references of its subject, predicate and object are
    /// taken away. Its graph stays known. Nothing changes where the store
    /// does not hold the quad.
    pub fn remove_encoded(&mut self, quad: &EncodedQuad) -> (r: bool)
        requires
            old(self)@.wf(),
        ensures
            final(self)@.wf(),
            final(self).base_version() == old(self).base_version(),
            r == old(self)@.quads().contains(*quad),
            final(self)@.quads() == old(self)@.quads().remove(*quad),
            final(self)@.graph_names() == old(self)@.graph_names(),
            final(self)@.table() == if r {
                table_remove_all(old(self)@.table(), quad_hashes(*quad))
            } else {
                old(self)@.table()
            },
            texts_kept(final(self)@.table(), old(self)@.table()),
    {
        let ghost before = self.state;
        if !self.state.contains(quad) {
            proof {
                assert(before.quads().remove(*quad) =~= before.quads());
            }
            return false;
        }
        self.state.remove_quad(quad);
        let ghost without_quad = self.state;
        remove_term_values(&quad.subject, &mut self.state.id2str);
        remove_term_values(&quad.predicate, &mut self.state.id2str);
        remove_term_values(&quad.object, &mut self.state.id2str);
        proof {
            let a = encoded_hashes(quad.subject);
            let b = encoded_hashes(quad.predicate);
            let c = encoded_hashes(quad.object);
            let table = before.table();
            lemma_table_remove_all_concat(table, a, b);
            lemma_table_remove_all_concat(table, a + b, c);
            assert(self.state.table() == table_remove_all(table, quad_hashes(*quad)));
            self.state.lemma_same_families(&without_quad);
            assert(self.state.quads() =~= before.quads().remove(*quad));
            assert forall|hash: u128|
                count_ok(self.state.table(), hash, #[trigger] self.state.references(hash)) by {
                assert(count_ok(table, hash, before.references(hash)));
                assert(before.references(hash) == without_quad.references(hash) + occurrences(
                    hash,
                    quad_hashes(*quad),
                ));
                lemma_count_after_remove_all(
                    table,
                    quad_hashes(*quad),
                    hash,
                    before.references(hash),
                );
            }
            assert(texts_kept(self.state.table(), table)) by {
                assert forall|hash: u128|
                    #![trigger self.state.table().contains_key(hash)]
                    #![trigger table.contains_key(hash)]
                    (self.state.table().contains_key(hash) ==> table.contains_key(hash)
                        && self.state.table()[hash].text == table[hash].text
                        && self.state.table()[hash].count <= table[hash].count) && (
                    table.contains_key(hash) && table[hash].count >= MAX_COUNT
                        ==> self.state.table().contains_key(hash) && self.state.table()[hash]
                        == table[hash]) by {
                    lemma_texts_after_remove_all(table, quad_hashes(*quad), hash);
                }
            }
        }
        true
    }

    /// Takes a quad out of the store.
    pub fn remove(&mut self, quad: &Quad) -> (r: bool)
        requires
            old(self)@.wf(),
        ensures
            final(self)@.wf(),
            final(self).base_version() == old(self).base_version(),
            r == old(self)@.quads().contains(encoded_quad(quad@)),
            final(self)@.quads() == quads_after_remove(old(self)@.quads(), quad@),
            final(self)@.graph_names() == old(self)@.graph_names(),
            final(self)@.table() == if r {
                table_remove_all(old(self)@.table(), quad_hashes(encoded_quad(quad@)))
            } else {
                old(self)@.table()
            },
            texts_kept(final(self)@.table(), old(self)@.table()),
    {
        let encoded = EncodedQuad::from_quad(quad);
        self.remove_encoded(&encoded)
    }

    /// Takes every quad of a list out of the store.
    fn remove_listed(&mut self, list: &Vec<EncodedQuad>)
        requires
            old(self)@.wf(),
        ensures
            final(self)@.wf(),
            final(self).base_version() == old(self).base_version(),
            final(self)@.quads() == old(self)@.quads().difference(list@.to_set()),
            final(self)@.graph_names() == old(self)@.graph_names(),
            texts_kept(final(self)@.table(), old(self)@.table()),
    {
        let mut i: usize = 0;
        proof {
            assert(list@.take(0) =~= Seq::<EncodedQuad>::empty());
            assert(self@.quads() =~= old(self)@.quads().difference(list@.take(0).to_set()));
        }
        while i < list.len()
            invariant
                i <= list@.len(),
                self@.wf(),
                self.base_version() == old(self).base_version(),
                self@.quads() == old(self)@.quads().difference(list@.take(i as int).to_set()),
                self@.graph_names() == old(self)@.graph_names(),
                texts_kept(self@.table(), old(self)@.table()),
            decreases list@.len() - i,
        {
            let ghost quads = self@.quads();
            let _ = self.remove_encoded(&list[i]);
            proof {
                let done = list@.take(i as int);
                let next = list@.take(i as int + 1);
                assert(next =~= done.push(list@[i as int]));
                lemma_push_to_set(done, list@[i as int]);
                assert(self@.quads() =~= old(self)@.quads().difference(next.to_set()));
            }
            i += 1;
        }
        proof {
            assert(list@.take(list@.len() as int) =~= list@);
        }
    }

    /// Takes every quad of a graph out of the store. The graph stays
    /// known.
    pub fn clear_graph(&mut self, graph_name: &GraphName)
        requires
            old(self)@.wf(),
        ensures
            final(self)@.wf(),
            final(self).base_version() == old(self).base_version(),
            final(self)@.quads() == old(self)@.quads().filter(
                |quad: EncodedQuad| quad.graph_name != encoded_graph_name(graph_name@),
            ),
            final(self)@.graph_names() == old(self)@.graph_names(),
            texts_kept(final(self)@.table(), old(self)@.table()),
    {
        let encoded = EncodedTerm::from_graph_name(graph_name);
        let list = self.state.quads_for_graph(&encoded);
        self.remove_listed(&list);
        proof {
            assert(self@.quads() =~= old(self)@.quads().filter(
                |quad: EncodedQuad| quad.graph_name != encoded_graph_name(graph_name@),
            ));
        }
    }

    /// Takes every quad of a named graph out of the store. The graphs stay
    /// known.
    pub fn clear_all_named_graphs(&mut self)
        requires
            old(self)@.wf(),
        ensures
            final(self)@.wf(),
            final(self).base_version() == old(self).base_version(),
            final(self)@.quads() == old(self)@.quads().filter(
                |quad: EncodedQuad| quad.graph_name == EncodedTerm::DefaultGraph,
            ),
            final(self)@.graph_names() == old(self)@.graph_names(),
            texts_kept(final(self)@.table(), old(self)@.table()),
    {
        let list = self.state.quads_in_named_graph();
        self.remove_listed(&list);
        proof {
            assert(self@.quads() =~= old(self)@.quads().filter(
                |quad: EncodedQuad| quad.graph_name == EncodedTerm::DefaultGraph,
            ));
        }
    }

    /// Takes every quad out of the store. The named graphs stay known.
    pub fn clear_all_graphs(&mut self)
        requires
            old(self)@.wf(),
        ensures
            final(self)@.wf(),
            final(self).base_version() == old(self).base_version(),
            final(self)@.quads() == Set::<EncodedQuad>::empty(),
            final(self)@.graph_names() == old(self)@.graph_names(),
            texts_kept(final(self)@.table(), old(self)@.table()),
    {
        let list = self.state.all_quads();
        self.remove_listed(&list);
        proof {
            assert(self@.quads() =~= Set::<EncodedQuad>::empty());
        }
    }

    /// Takes a named graph out of the store: its quads first, then the
    /// graph itself with the reference to its name.
    pub fn remove_encoded_named_graph(&mut self, graph_name: &EncodedTerm) -> (r: bool)
        requires
            old(self)@.wf(),
        ensures
            final(self)@.wf(),
            final(self).base_version() == old(self).base_version(),
            r == old(self)@.named_graphs().contains(*graph_name),
            final(self)@.quads() == old(self)@.quads().filter(
                |quad: EncodedQuad| quad.graph_name != *graph_name,
            ),
            final(self)@.named_graphs() == old(self)@.named_graphs().remove(*graph_name),
            texts_kept(final(self)@.table(), old(self)@.table()),
    {
        let list = self.state.quads_for_graph(graph_name);
        self.remove_listed(&list);
        proof {
            assert(self@.quads() =~= old(self)@.quads().filter(
                |quad: EncodedQuad| quad.graph_name != *graph_name,
            ));
        }
        let ghost before = self.state;
        let at = match find_term(&self.state.graphs, graph_name) {
            Some(at) => at,
            None => {
                proof {
                    assert(before.named_graphs().remove(*graph_name) =~= before.named_graphs());
                }
                return false;
            },
        };
        let _ = self.state.graphs.remove(at);
        remove_term_values(graph_name, &mut self.state.id2str);
        proof {
            lemma_remove_to_set(before.graph_names(), at as int);
            self.state.lemma_same_families(&before);
            assert(self.state.graph_names() =~= before.graph_names().remove(at as int));
            assert forall|i: int| 0 <= i < self.state.named_quads().len() implies 
                self.state.graph_names().contains(
                (#[trigger] self.state.named_quads()[i]).graph_name,
            ) by {
                let quad = before.named_quads()[i];
                assert(before.named_quads().contains(quad));
                assert(before.quads().contains(quad));
                assert(quad.graph_name != *graph_name);
                assert(before.graph_names().contains(quad.graph_name));
                assert(before.graph_names().to_set().contains(quad.graph_name));
                assert(self.state.graph_names().to_set().contains(quad.graph_name));
            }
            assert(!self.state.graph_names().contains(EncodedTerm::DefaultGraph)) by {
                if self.state.graph_names().to_set().contains(EncodedTerm::DefaultGraph) {
                    assert(before.graph_names().to_set().contains(EncodedTerm::DefaultGraph));
                }
            }
            assert forall|hash: u128|
                count_ok(self.state.table(), hash, #[trigger] self.state.references(hash)) by {
                assert(count_ok(before.table(), hash, before.references(hash)));
                lemma_terms_refs_remove(hash, before.graph_names(), at as int);
                lemma_count_after_remove_all(
                    before.table(),
                    encoded_hashes(*graph_name),
                    hash,
                    before.references(hash),
                );
            }
            let removed = before.table();
            assert(texts_kept(self.state.table(), removed)) by {
                assert forall|hash: u128|
                    #![trigger self.state.table().contains_key(hash)]
                    #![trigger removed.contains_key(hash)]
                    (self.state.table().contains_key(hash) ==> removed.contains_key(hash)
                        && self.state.table()[hash].text == removed[hash].text
                        && self.state.table()[hash].count <= removed[hash].count) && (
                    removed.contains_key(hash) && removed[hash].count >= MAX_COUNT
                        ==> self.state.table().contains_key(hash) && self.state.table()[hash]
                        == removed[hash]) by {
                    lemma_texts_after_remove_all(removed, encoded_hashes(*graph_name), hash);
                }
            }
        }
        true
    }

    /// Takes a named graph out of the store, with its quads. Nothing
    /// changes for the default graph.
    pub fn remove_named_graph(&mut self, graph_name: &GraphName) -> (r: bool)
        requires
            old(self)@.wf(),
        ensures
            final(self)@.wf(),
            final(self).base_version() == old(self).base_version(),
            r == (!(graph_name@ is DefaultGraph) && old(self)@.named_graphs().contains(
                encoded_graph_name(graph_name@),
            )),
            final(self)@.quads() == if graph_name@ is DefaultGraph {
                old(self)@.quads()
            } else {
                old(self)@.quads().filter(
                    |quad: EncodedQuad| quad.graph_name != encoded_graph_name(graph_name@),
                )
            },
            final(self)@.named_graphs() == old(self)@.named_graphs().remove(
                encoded_graph_name(graph_name@),
            ),
            texts_kept(final(self)@.table(), old(self)@.table()),
    {
        let encoded = EncodedTerm::from_graph_name(graph_name);
        if encoded.is_default_graph() {
            proof {
                assert(self@.named_graphs().remove(encoded) =~= self@.named_graphs());
            }
            return false;
        }
        self.remove_encoded_named_graph(&encoded)
    }

    /// Takes every named graph out of the store, with its quads.
    pub fn remove_all_named_graphs(&mut self)
        requires
            old(self)@.wf(),
        ensures
            final(self)@.wf(),
            final(self).base_version() == old(self).base_version(),
            final(self)@.quads() == old(self)@.quads().filter(
                |quad: EncodedQuad| quad.graph_name == EncodedTerm::DefaultGraph,
            ),
            final(self)@.named_graphs() == Set::<EncodedTerm>::empty(),
            texts_kept(final(self)@.table(), old(self)@.table()),
    {
        let names = self.state.list_named_graphs();
        let mut i: usize = 0;
        proof {
            assert(names@.take(0) =~= Seq::<EncodedTerm>::empty());
            assert(self@.quads() =~= old(self)@.quads().filter(
                |quad: EncodedQuad| !names@.take(0).contains(quad.graph_name),
            ));
            assert(self@.named_graphs() =~= old(self)@.named_graphs().difference(
                names@.take(0).to_set(),
            ));
        }
        while i < names.len()
            invariant
                i <= names@.len(),
                self@.wf(),
                self.base_version() == old(self).base_version(),
                names@ == old(self)@.graph_names(),
                self@.quads() == old(self)@.quads().filter(
                    |quad: EncodedQuad| !names@.take(i as int).contains(quad.graph_name),
                ),
                self@.named_graphs() == old(self)@.named_graphs().difference(
                    names@.take(i as int).to_set(),
                ),
                texts_kept(self@.table(), old(self)@.table()),
            decreases names@.len() - i,
        {
            let _ = self.remove_encoded_named_graph(&names[i]);
            proof {
                let done = names@.take(i as int);
                let next = names@.take(i as int + 1);
                assert(next =~= done.push(names@[i as int]));
                lemma_push_to_set(done, names@[i as int]);
                assert forall|quad: EncodedQuad|
                    next.contains(quad.graph_name) <==> done.contains(quad.graph_name)
                        || quad.graph_name == names@[i as int] by {
                    assert(next.to_set().contains(quad.graph_name) <==> done.to_set().insert(
                        names@[i as int],
                    ).contains(quad.graph_name));
                }
                assert(self@.quads() =~= old(self)@.quads().filter(
                    |quad: EncodedQuad| !next.contains(quad.graph_name),
                ));
                assert(self@.named_graphs() =~= old(self)@.named_graphs().difference(
                    next.to_set(),
                ));
            }
            i += 1;
        }
        proof {
            assert(names@.take(names@.len() as int) =~= names@);
            assert(self@.named_graphs() =~= Set::<EncodedTerm>::empty());
            assert forall|quad: EncodedQuad| #[trigger]
                old(self)@.quads().contains(quad) implies (names@.contains(quad.graph_name) <==> 
                quad.graph_name != EncodedTerm::DefaultGraph) by {
                old(self)@.lemma_default_membership(quad);
                old(self)@.lemma_named_membership(quad);
                if old(self)@.named_quads().contains(quad) {
                    let k = choose|k: int|
                        0 <= k < old(self)@.named_quads().len() && old(self)@.named_quads()[k]
                            == quad;
                    assert(old(self)@.graph_names().contains(
                        old(self)@.named_quads()[k].graph_name,
                    ));
                }
            }
            assert(self@.quads() =~= old(self)@.quads().filter(
                |quad: EncodedQuad| quad.graph_name == EncodedTerm::DefaultGraph,
            ));
        }
    }

    /// Empties the store: every named graph leaves with its quads, then
    /// every quad that is left. No index holds a key afterwards, and the
    /// string table holds no text but one whose count had reached the limit.
    pub fn clear(&mut self)
        requires
            old(self)@.wf(),
        ensures
            final(self)@.wf(),
            final(self).base_version() == old(self).base_version(),
            final(self)@.quads() == Set::<EncodedQuad>::empty(),
            final(self)@.named_graphs() == Set::<EncodedTerm>::empty(),
            forall|index: QuadIndex| (#[trigger] final(self)@.index_quads(index)).len() == 0,
            forall|hash: u128| #[trigger]
                final(self)@.table().contains_key(hash) ==> final(self)@.table()[hash].count
                    >= MAX_COUNT,
            texts_kept(final(self)@.table(), old(self)@.table()),
    {
        self.remove_all_named_graphs();
        self.clear_all_graphs();
        proof {
            let state = self@;
            if state.default_quads().len() > 0 {
                assert(state.default_quads().contains(state.default_quads()[0]));
                assert(state.quads().contains(state.default_quads()[0]));
            }
            if state.named_quads().len() > 0 {
                assert(state.named_quads().contains(state.named_quads()[0]));
                assert(state.quads().contains(state.named_quads()[0]));
            }
            if state.graph_names().len() > 0 {
                assert(state.graph_names().contains(state.graph_names()[0]));
                assert(state.named_graphs().contains(state.graph_names()[0]));
            }
            assert forall|index: QuadIndex| (#[trigger] state.index_quads(index)).len() == 0 by {
                assert(same_quads(
                    state.index_quads(index),
                    if index.holds_default_graph() {
                        state.default_quads()
                    } else {
                        state.named_quads()
                    },
                ));
            }
            assert forall|hash: u128| #[trigger]
                state.table().contains_key(hash) implies state.table()[hash].count
                >= MAX_COUNT by {
                assert(count_ok(state.table(), hash, state.references(hash)));
                assert(state.references(hash) == 0);
            }
        }
    }
}

impl StorageReader {
    /// Whether two states hold the same: the same quads in every index, in
    /// the same order, the same graph names and the same string table.
    pub open spec fn same_as(&self, other: &Self) -> bool {
        &&& self.default_quads() == other.default_quads()
        &&& self.named_quads() == other.named_quads()
        &&& self.graph_names() == other.graph_names()
        &&& self.table() == other.table()
        &&& forall|index: QuadIndex| #[trigger] self.index_quads(index) == other.index_quads(index)
    }

    /// A state with the indexes of a state whose indexes are in order has
    /// its indexes in order, and they hold the same quads.
    proof fn lemma_same_families(&self, other: &Self)
        requires
            other.indexes_wf(),
            self.dspo == other.dspo,
            self.dpos == other.dpos,
            self.dosp == other.dosp,
            self.spog == other.spog,
            self.posg == other.posg,
            self.ospg == other.ospg,
            self.gspo == other.gspo,
            self.gpos == other.gpos,
            self.gosp == other.gosp,
        ensures
            self.families_wf(),
            self.default_quads() == other.default_quads(),
            self.named_quads() == other.named_quads(),
            forall|index: QuadIndex| #[trigger] self.index_quads(index) == other.index_quads(index),
            forall|index: QuadIndex|
                same_quads(
                    #[trigger] self.index_quads(index),
                    if index.holds_default_graph() {
                        self.default_quads()
                    } else {
                        self.named_quads()
                    },
                ),
            self.default_quads().no_duplicates(),
            self.named_quads().no_duplicates(),
            forall|i: int|
                0 <= i < self.default_quads().len() ==> (#[trigger] self.default_quads()[i]).graph_name
                    == EncodedTerm::DefaultGraph,
            self.quads() == other.quads(),
            self.quads_ok(),
    {
        assert forall|index: QuadIndex| #[trigger] self.family(index) == other.family(index) by {}
        assert forall|index: QuadIndex|
            (#[trigger] self.family(index)).wf() && self.family(index).which() == index by {
            assert(other.family(index).wf());
        }
        assert forall|index: QuadIndex|
            same_quads(
                #[trigger] self.index_quads(index),
                if index.holds_default_graph() {
                    self.default_quads()
                } else {
                    self.named_quads()
                },
            ) by {
            assert(same_quads(
                other.index_quads(index),
                if index.holds_default_graph() {
                    other.default_quads()
                } else {
                    other.named_quads()
                },
            ));
        }
    }
}

impl StrLookup for StorageReader {
    type Error = Unfailing;

    open spec fn strings(&self) -> Map<u128, Seq<char>> {
        table_texts(self.table())
    }

    open spec fn valid(&self) -> bool {
        self.strings_wf()
    }

    open spec fn never_fails(&self) -> bool {
        true
    }

    fn get_str(&self, key: &StrHash) -> (r: Result<Option<String>, Unfailing>) {
        Ok(self.id2str.get(key))
    }

    fn contains_str(&self, key: &StrHash) -> (r: Result<bool, Unfailing>) {
        Ok(self.id2str.contains(key))
    }
}

/// Why a transaction was not committed: the store has changed since the
/// transaction started, or has no version left to give.
#[derive(Clone, Copy, Debug, PartialEq, Eq, Structural)]
pub struct ConflictError;

/// The store: its committed state and the number of commits so far.
pub struct Storage {
    committed: StorageReader,
    version: u64,
}

impl View for Storage {
    type V = StorageReader;

    closed spec fn view(&self) -> StorageReader {
        self.committed
    }
}

impl Storage {
    /// The number of commits so far.
    pub closed spec fn version(&self) -> u64 {
        self.version
    }

    /// A store that holds nothing.
    pub fn new() -> (r: Self)
        ensures
            r@.wf(),
            r@.quads() == Set::<EncodedQuad>::empty(),
            r@.named_graphs() == Set::<EncodedTerm>::empty(),
            r@.table() == Map::<u128, StrEntryView>::empty(),
            r.version() == 0,
    {
        let committed = StorageReader::new();
        proof {
            assert(committed.quads() =~= Set::<EncodedQuad>::empty());
            assert(committed.named_graphs() =~= Set::<EncodedTerm>::empty());
        }
        Self { committed, version: 0 }
    }

    /// The committed state, to read without copying it.
    pub fn reader(&self) -> (r: &StorageReader)
        ensures
            *r == self@,
    {
        &self.committed
    }

    /// A snapshot: the committed state as it is now, in a value of its own
    /// that no later commit changes.
    pub fn snapshot(&self) -> (r: StorageReader)
        requires
            self@.wf(),
        ensures
            r.wf(),
            r.same_as(&self@),
    {
        self.committed.duplicate()
    }

    /// Starts a transaction on the committed state as it is now.
    pub fn transaction(&self) -> (r: StorageWriter)
        requires
            self@.wf(),
        ensures
            r@.wf(),
            r@.same_as(&self@),
            r.base_version() == self.version(),
    {
        StorageWriter { state: self.snapshot(), base: self.version }
    }

    /// Commits a transaction: what it has written becomes the state of the
    /// store, all of it at once. A transaction that started from an earlier
    /// state of the store is refused and leaves the store as it is, and so
    /// does every transaction once the number of commits has reached its
    /// limit.
    pub fn commit(&mut self, writer: StorageWriter) -> (r: Result<(), ConflictError>)
        requires
            old(self)@.wf(),
            writer@.wf(),
        ensures
            final(self)@.wf(),
            r is Ok <==> writer.base_version() == old(self).version() && old(self).version()
                < u64::MAX,
            r is Ok ==> final(self)@ == writer@ && final(self).version() == old(self).version()
                + 1,
            r is Err ==> final(self)@ == old(self)@ && final(self).version() == old(
                self,
            ).version(),
    {
        if writer.base != self.version || self.version == u64::MAX {
            return Err(ConflictError);
        }
        self.committed = writer.state;
        self.version = self.version + 1;
        Ok(())
    }

    /// Gives a transaction up. The store stays as it is.
    pub fn rollback(&self, writer: StorageWriter) {
        let _ = writer;
    }
}

/// The quads of a store once a quad is added.
pub open spec fn quads_after_insert(quads: Set<EncodedQuad>, quad: QuadView) -> Set<EncodedQuad> {
    quads.insert(encoded_quad(quad))
}

/// The quads of a store once a quad is taken out.
pub open spec fn quads_after_remove(quads: Set<EncodedQuad>, quad: QuadView) -> Set<EncodedQuad> {
    quads.remove(encoded_quad(quad))
}

/// The quads of a store that a pattern asks for.
pub open spec fn matching(quads: Set<EncodedQuad>, pattern: QuadPattern) -> Set<EncodedQuad> {
    quads.filter(|quad: EncodedQuad| pattern.matches(quad))
}

/// A quad that was added is in the store.
pub proof fn lemma_insert_then_contains(quads: Set<EncodedQuad>, quad: QuadView)
    ensures
        quads_after_insert(quads, quad).contains(encoded_quad(quad)),
{
}

/// A quad that was added twice and taken out once is not in the store.
pub proof fn lemma_insert_twice_remove_once(quads: Set<EncodedQuad>, quad: QuadView)
    ensures
        !quads_after_remove(
            quads_after_insert(quads_after_insert(quads, quad), quad),
            quad,
        ).contains(encoded_quad(quad)),
        quads_after_insert(quads_after_insert(quads, quad), quad) == quads_after_insert(
            quads,
            quad,
        ),
{
    assert(quads_after_insert(quads_after_insert(quads, quad), quad) =~= quads_after_insert(
        quads,
        quad,
    ));
}

/// A quad that was added is among the quads that any pattern asks for which
/// the quad matches.
pub proof fn lemma_insert_then_matches(
    quads: Set<EncodedQuad>,
    quad: QuadView,
    pattern: QuadPattern,
)
    requires
        pattern.matches(encoded_quad(quad)),
    ensures
        matching(quads_after_insert(quads, quad), pattern).contains(encoded_quad(quad)),
{
}

proof fn lemma_quads_refs_member(hash: u128, quads: Seq<EncodedQuad>, at: int)
    requires
        0 <= at < quads.len(),
    ensures
        quads_refs(hash, quads) >= occurrences(hash, quad_hashes(quads[at])),
    decreases quads.len(),
{
    if at < quads.len() - 1 {
        lemma_quads_refs_member(hash, quads.drop_last(), at);
    }
}

proof fn lemma_terms_refs_member(hash: u128, terms: Seq<EncodedTerm>, at: int)
    requires
        0 <= at < terms.len(),
    ensures
        terms_refs(hash, terms) >= occurrences(hash, encoded_hashes(terms[at])),
    decreases terms.len(),
{
    if at < terms.len() - 1 {
        lemma_terms_refs_member(hash, terms.drop_last(), at);
    }
}

proof fn lemma_occurrences_member(hash: u128, hashes: Seq<u128>)
    requires
        hashes.contains(hash),
    ensures
        occurrences(hash, hashes) >= 1,
    decreases hashes.len(),
{
    if hashes.last() != hash {
        let i = choose|i: int| 0 <= i < hashes.len() && hashes[i] == hash;
        assert(hashes.drop_last()[i] == hash);
        lemma_occurrences_member(hash, hashes.drop_last());
    }
}

/// In a state in order, every text that a quad of the store refers to by
/// identifier, in its subject, its predicate, its object or the name of its
/// graph, stands in the string table with a count of at least one.
pub proof fn lemma_referenced_strings_present(state: StorageReader, quad: EncodedQuad, hash: u128)
    requires
        state.wf(),
        state.quads().contains(quad),
        quad_hashes(quad).contains(hash) || encoded_hashes(quad.graph_name).contains(hash),
    ensures
        state.table().contains_key(hash),
        state.table()[hash].count >= 1,
{
    assert(count_ok(state.table(), hash, state.references(hash)));
    state.lemma_default_membership(quad);
    state.lemma_named_membership(quad);
    if quad_hashes(quad).contains(hash) {
        lemma_occurrences_member(hash, quad_hashes(quad));
        if state.default_quads().contains(quad) {
            let at = choose|at: int|
                0 <= at < state.default_quads().len() && state.default_quads()[at] == quad;
            lemma_quads_refs_member(hash, state.default_quads(), at);
        } else {
            let at = choose|at: int|
                0 <= at < state.named_quads().len() && state.named_quads()[at] == quad;
            lemma_quads_refs_member(hash, state.named_quads(), at);
        }
    } else {
        lemma_occurrences_member(hash, encoded_hashes(quad.graph_name));
        assert(quad.graph_name != EncodedTerm::DefaultGraph);
        let at = choose|at: int|
            0 <= at < state.named_quads().len() && state.named_quads()[at] == quad;
        assert(state.graph_names().contains(state.named_quads()[at].graph_name));
        let g = choose|g: int|
            0 <= g < state.graph_names().len() && state.graph_names()[g] == quad.graph_name;
        lemma_terms_refs_member(hash, state.graph_names(), g);
    }
}

/// In a state in order, the string table holds every text to which the
/// terms of a quad of the store refer.
proof fn lemma_stored_texts_held(state: StorageReader, quad: EncodedQuad)
    requires
        state.wf(),
        state.quads().contains(quad),
    ensures
        holds_all(state.strings(), encoded_hashes(quad.subject)),
        holds_all(state.strings(), encoded_hashes(quad.predicate)),
        holds_all(state.strings(), encoded_hashes(quad.object)),
        holds_all(state.strings(), encoded_hashes(quad.graph_name)),
{
    let strings = state.strings();
    let s = encoded_hashes(quad.subject);
    let p = encoded_hashes(quad.predicate);
    let o = encoded_hashes(quad.object);
    let g = encoded_hashes(quad.graph_name);
    let all = quad_hashes(quad);
    assert(all == s + p + o);
    assert forall|i: int| 0 <= i < s.len() implies strings.contains_key(#[trigger] s[i]) by {
        assert(all[i] == s[i]);
        assert(all.contains(s[i]));
        lemma_referenced_strings_present(state, quad, s[i]);
    }
    assert forall|i: int| 0 <= i < p.len() implies strings.contains_key(#[trigger] p[i]) by {
        assert(all[s.len() + i] == p[i]);
        assert(all.contains(p[i]));
        lemma_referenced_strings_present(state, quad, p[i]);
    }
    assert forall|i: int| 0 <= i < o.len() implies strings.contains_key(#[trigger] o[i]) by {
        assert(all[s.len() + p.len() + i] == o[i]);
        assert(all.contains(o[i]));
        lemma_referenced_strings_present(state, quad, o[i]);
    }
    assert forall|i: int| 0 <= i < g.len() implies strings.contains_key(#[trigger] g[i]) by {
        assert(g.contains(g[i]));
        lemma_referenced_strings_present(state, quad, g[i]);
    }
}

/// In a state in order, every quad of the store can be decoded, and so can
/// each of its terms.
pub proof fn lemma_stored_quads_decode(state: StorageReader, quad: EncodedQuad)
    requires
        state.wf(),
        state.quads().contains(quad),
    ensures
        decoded_quad(quad, state.strings()) is Ok,
        decoded_term(quad.subject, state.strings()) is Ok,
        decoded_term(quad.predicate, state.strings()) is Ok,
        decoded_term(quad.object, state.strings()) is Ok,
        !(quad.graph_name is DefaultGraph) ==> decoded_term(quad.graph_name, state.strings())
            is Ok,
{
    assert(quad_ok(quad));
    lemma_stored_texts_held(state, quad);
    lemma_quad_decodes(quad, state.strings());
}

/// The index chosen for a named graph covers a pattern with a graph, and
/// the index chosen for all graphs covers a pattern without one.
proof fn lemma_named_cover(pattern: QuadPattern)
    ensures
        pattern.graph_name is Some ==> covers(
            crate::storage::index::named_graph_index(
                pattern.subject is Some,
                pattern.predicate is Some,
                pattern.object is Some,
            ).order(),
            pattern,
        ),
        pattern.graph_name is None ==> covers(
            crate::storage::index::all_graphs_index(
                pattern.subject is Some,
                pattern.predicate is Some,
                pattern.object is Some,
            ).order(),
            pattern,
        ),
{
}

/// In a state in order, the quads that the store gives for a pattern are
/// the quads of the store that the pattern matches, each once.
pub proof fn lemma_pattern_quads(state: StorageReader, pattern: QuadPattern)
    requires
        state.wf(),
    ensures
        state.pattern_quads(pattern).no_duplicates(),
        state.pattern_quads(pattern).to_set() == matching(state.quads(), pattern),
{
    let found = state.pattern_quads(pattern);
    let open = QuadPattern {
        subject: pattern.subject,
        predicate: pattern.predicate,
        object: pattern.object,
        graph_name: None,
    };
    let first = crate::storage::index::default_graph_index(
        pattern.subject is Some,
        pattern.predicate is Some,
        pattern.object is Some,
    );
    lemma_default_cover(open);
    lemma_named_cover(pattern);
    state.family(first).lemma_quads();
    match pattern.graph_name {
        Some(graph_name) => {
            if graph_name == EncodedTerm::DefaultGraph {
                let prefix = pattern_prefix(first.order(), open);
                lemma_chosen(state.index_quads(first), first.order(), prefix);
                assert forall|quad: EncodedQuad|
                    found.contains(quad) <==> state.quads().contains(quad) && pattern.matches(
                        quad,
                    ) by {
                    lemma_covered_prefix(first.order(), open, quad);
                    state.lemma_index_membership(first, quad);
                }
            } else {
                let which = crate::storage::index::named_graph_index(
                    pattern.subject is Some,
                    pattern.predicate is Some,
                    pattern.object is Some,
                );
                let prefix = pattern_prefix(which.order(), pattern);
                state.family(which).lemma_quads();
                lemma_chosen(state.index_quads(which), which.order(), prefix);
                assert forall|quad: EncodedQuad|
                    found.contains(quad) <==> state.quads().contains(quad) && pattern.matches(
                        quad,
                    ) by {
                    lemma_covered_prefix(which.order(), pattern, quad);
                    state.lemma_index_membership(which, quad);
                }
            }
        },
        None => {
            let which = crate::storage::index::all_graphs_index(
                pattern.subject is Some,
                pattern.predicate is Some,
                pattern.object is Some,
            );
            state.family(which).lemma_quads();
            let a = chosen(
                state.index_quads(first),
                first.order(),
                pattern_prefix(first.order(), pattern),
            );
            let b = chosen(
                state.index_quads(which),
                which.order(),
                pattern_prefix(which.order(), pattern),
            );
            lemma_chosen(state.index_quads(first), first.order(), pattern_prefix(
                first.order(),
                pattern,
            ));
            lemma_chosen(state.index_quads(which), which.order(), pattern_prefix(
                which.order(),
                pattern,
            ));
            assert(open == pattern);
            assert forall|quad: EncodedQuad|
                found.contains(quad) <==> state.quads().contains(quad) && pattern.matches(
                    quad,
                ) by {
                lemma_covered_prefix(first.order(), pattern, quad);
                lemma_covered_prefix(which.order(), pattern, quad);
                state.lemma_index_membership(first, quad);
                state.lemma_index_membership(which, quad);
                lemma_concat_contains(a, b, quad);
            }
            assert forall|i: int, j: int| 0 <= i < j < found.len() implies found[i]
                != found[j] by {
                if j < a.len() {
                    assert(a[i] == found[i] && a[j] == found[j]);
                } else if i >= a.len() {
                    assert(b[i - a.len()] == found[i] && b[j - a.len()] == found[j]);
                } else {
                    assert(a[i] == found[i]);
                    assert(b[j - a.len()] == found[j]);
                    assert(a.contains(found[i]));
                    assert(b.contains(found[j]));
                    state.lemma_index_membership(first, found[i]);
                    state.lemma_index_membership(which, found[j]);
                }
            }
        },
    }
    assert(found.to_set() =~= matching(state.quads(), pattern));
}

/// A state in order that holds no quad and knows no named graph has no key
/// in any index, and no text in its string table but one whose count has
/// reached the limit.
pub proof fn lemma_empty_state(state: StorageReader)
    requires
        state.wf(),
        state.quads() == Set::<EncodedQuad>::empty(),
        state.named_graphs() == Set::<EncodedTerm>::empty(),
    ensures
        forall|index: QuadIndex| (#[trigger] state.index_quads(index)).len() == 0,
        forall|hash: u128| #[trigger]
            state.table().contains_key(hash) ==> state.table()[hash].count >= MAX_COUNT,
{
    if state.default_quads().len() > 0 {
        assert(state.default_quads().contains(state.default_quads()[0]));
        assert(state.quads().contains(state.default_quads()[0]));
    }
    if state.named_quads().len() > 0 {
        assert(state.named_quads().contains(state.named_quads()[0]));
        assert(state.quads().contains(state.named_quads()[0]));
    }
    if state.graph_names().len() > 0 {
        assert(state.graph_names().contains(state.graph_names()[0]));
        assert(state.named_graphs().contains(state.graph_names()[0]));
    }
    assert forall|index: QuadIndex| (#[trigger] state.index_quads(index)).len() == 0 by {
        assert(same_quads(
            state.index_quads(index),
            if index.holds_default_graph() {
                state.default_quads()
            } else {
                state.named_quads()
            },
        ));
    }
    assert forall|hash: u128| #[trigger]
        state.table().contains_key(hash) implies state.table()[hash].count >= MAX_COUNT by {
        assert(count_ok(state.table(), hash, state.references(hash)));
        assert(state.references(hash) == 0);
    }
}

/// Where references were only taken away, the string table is fixed by the
/// table before and by the references that are left: an entry whose count
/// was at the limit stays as it was, and another stays while something
/// refers to it, with its text and with the number of references as its
/// count.
pub proof fn lemma_table_after_removals(before: StorageReader, after: StorageReader, hash: u128)
    requires
        before.wf(),
        after.wf(),
        texts_kept(after.table(), before.table()),
    ensures
        after.table().contains_key(hash) <==> before.table().contains_key(hash) && (
        before.table()[hash].count >= MAX_COUNT || after.references(hash) > 0),
        after.table().contains_key(hash) ==> after.table()[hash] == if before.table()[hash].count
            >= MAX_COUNT {
            before.table()[hash]
        } else {
            (StrEntryView { text: before.table()[hash].text, count: after.references(hash) })
        },
{
    assert(count_ok(before.table(), hash, before.references(hash)));
    assert(count_ok(after.table(), hash, after.references(hash)));
    if after.table().contains_key(hash) {
        assert(before.table().contains_key(hash));
    }
    if before.table().contains_key(hash) {
        assert(before.table()[hash].count >= MAX_COUNT ==> after.table().contains_key(hash));
    }
}

} // verus!

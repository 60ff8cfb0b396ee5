//! The evaluation of the operations of an update, inside one transaction.

use crate::model::blank_node::BlankNodeView;
use crate::model::named_node::NamedNode;
use crate::model::triple::{
    GraphName, GraphNameView, Quad, QuadView, Subject, SubjectView, Term, TermView, Triple,
    TripleView,
};
use crate::sparql::algebra::{
    GraphNamePattern, GraphPattern, GraphTarget, GraphUpdateOperation, NamedNodePattern,
    QuadPattern, TermPattern, TriplePattern, Update, Variable,
};
use crate::sparql::blank_nodes::{
    allocate_in_quad, convert_quad, grown_from, lemma_grown_twice, lemma_subject_stays_mapped,
    lemma_term_stays_mapped, quad_blank_nodes, quad_is_mapped, renamed_quad, BlankNodeMap,
};
use crate::sparql::error::EvaluationError;
use crate::sparql::eval::{eval_plan, rows_of};
use crate::sparql::options::UpdateOptions;
use crate::sparql::plan::{solutions, tuple_views, Bindings, EncodedTuple, PatternValue};
use crate::sparql::plan_builder::{
    build, find_slot, is_refusal, is_supported, pattern_slots, plan_of, position, slot_views,
    PlanVariable, PlanVariableView,
};
use crate::storage::numeric_encoder::{
    decode_named_node, decode_term, decoded_named_node, decoded_term, encoded_graph_name,
    encoded_named_node, encoded_quad, failure_text, table_insert_all, table_remove_all,
    DecodeFailure, DecoderError, EncodedQuad, EncodedTerm, StrLookup,
};
use crate::storage::ref_count::quad_hashes;
use crate::storage::store::{
    graph_name_strings, quad_strings, quads_after_insert, quads_after_remove, texts_kept, Storage,
    StorageReader, StorageWriter,
};
use crate::storage::string_store::{StrEntryView, Unfailing, MAX_COUNT};
use crate::text::copy_str;
use vstd::prelude::*;

verus! {

/// The term that a variable is bound to in a tuple, if the variable has a
/// slot and the tuple binds it.
pub open spec fn looked_up(
    name: Seq<char>,
    table: Seq<PlanVariableView>,
    values: Bindings,
) -> Option<EncodedTerm> {
    match position(table, PlanVariableView::Variable(name)) {
        Some(at) => if values.contains_key(at) {
            Some(values[at])
        } else {
            None
        },
        None => None,
    }
}

/// The term that a variable is bound to in a tuple.
pub fn lookup_variable(v: &Variable, variables: &Vec<PlanVariable>, values: &EncodedTuple) -> (r:
    Option<EncodedTerm>)
    ensures
        r == looked_up(v@, slot_views(variables@), values@),
{
    let key = PlanVariable::Variable(v.duplicate());
    match find_slot(variables, &key) {
        Some(at) => match values.get(at) {
            Some(term) => Some(term.duplicate()),
            None => None,
        },
        None => None,
    }
}

/// What the instance of a part of a template may be: a value, nothing
/// where the part cannot be made, or the failure of a decoding.
pub open spec fn instance_outcome<T: View>(
    r: Result<Option<T>, EvaluationError>,
    expected: Result<Option<T::V>, DecodeFailure>,
) -> bool {
    match r {
        Ok(Some(value)) => expected == Ok::<Option<T::V>, DecodeFailure>(Some(value@)),
        Ok(None) => expected == Ok::<Option<T::V>, DecodeFailure>(None),
        Err(error) => expected is Err && (error matches EvaluationError::Decoding { msg } && msg@
            == failure_text(expected->Err_0)),
    }
}

/// The instance of a term of a template for a tuple: the term itself, the
/// blank node that takes the place of a blank node, the term that a
/// variable is bound to. Nothing for a blank node without one to take its
/// place and for a variable that is not bound.
pub open spec fn term_instance(
    term: TermPattern,
    table: Seq<PlanVariableView>,
    values: Bindings,
    strings: Map<u128, Seq<char>>,
    bnodes: Map<BlankNodeView, BlankNodeView>,
) -> Result<Option<TermView>, DecodeFailure>
    decreases term,
{
    match term {
        TermPattern::NamedNode(node) => Ok(Some(TermView::NamedNode(node@))),
        TermPattern::BlankNode(node) => if bnodes.contains_key(node@) {
            Ok(Some(TermView::BlankNode(bnodes[node@])))
        } else {
            Ok(None)
        },
        TermPattern::Literal(literal) => Ok(Some(TermView::Literal(literal@))),
        TermPattern::Triple(triple) => match triple_instance(
            *triple,
            table,
            values,
            strings,
            bnodes,
        ) {
            Ok(Some(triple)) => Ok(Some(TermView::Triple(Box::new(triple)))),
            Ok(None) => Ok(None),
            Err(failure) => Err(failure),
        },
        TermPattern::Variable(variable) => match looked_up(variable@, table, values) {
            None => Ok(None),
            Some(encoded) => match decoded_term(encoded, strings) {
                Ok(term) => Ok(Some(term)),
                Err(failure) => Err(failure),
            },
        },
    }
}

/// The instance of an IRI of a template for a tuple.
pub open spec fn named_node_instance(
    term: NamedNodePattern,
    table: Seq<PlanVariableView>,
    values: Bindings,
    strings: Map<u128, Seq<char>>,
) -> Result<Option<Seq<char>>, DecodeFailure> {
    match term {
        NamedNodePattern::NamedNode(node) => Ok(Some(node@)),
        NamedNodePattern::Variable(variable) => match looked_up(variable@, table, values) {
            None => Ok(None),
            Some(encoded) => match decoded_named_node(encoded, strings) {
                Ok(iri) => Ok(Some(iri)),
                Err(failure) => Err(failure),
            },
        },
    }
}

/// The instance of the graph of a template for a tuple.
pub open spec fn graph_name_instance(
    term: GraphNamePattern,
    table: Seq<PlanVariableView>,
    values: Bindings,
    strings: Map<u128, Seq<char>>,
) -> Result<Option<GraphNameView>, DecodeFailure> {
    match term {
        GraphNamePattern::NamedNode(node) => Ok(Some(GraphNameView::NamedNode(node@))),
        GraphNamePattern::DefaultGraph => Ok(Some(GraphNameView::DefaultGraph)),
        GraphNamePattern::Variable(variable) => match looked_up(variable@, table, values) {
            None => Ok(None),
            Some(encoded) => if encoded == EncodedTerm::DefaultGraph {
                Ok(Some(GraphNameView::DefaultGraph))
            } else {
                match decoded_named_node(encoded, strings) {
                    Ok(iri) => Ok(Some(GraphNameView::NamedNode(iri))),
                    Err(failure) => Err(failure),
                }
            },
        },
    }
}

/// The subject that a term can be: nothing for a literal.
pub open spec fn as_subject(term: Option<TermView>) -> Option<SubjectView> {
    match term {
        Some(TermView::NamedNode(iri)) => Some(SubjectView::NamedNode(iri)),
        Some(TermView::BlankNode(node)) => Some(SubjectView::BlankNode(node)),
        Some(TermView::Triple(triple)) => Some(SubjectView::Triple(triple)),
        Some(TermView::Literal(_)) => None,
        None => None,
    }
}

/// The instance of a triple of a template for a tuple: its subject, its
/// predicate and its object in turn. Nothing as soon as one of them cannot
/// be made, or the subject is a literal.
pub open spec fn triple_instance(
    triple: TriplePattern,
    table: Seq<PlanVariableView>,
    values: Bindings,
    strings: Map<u128, Seq<char>>,
    bnodes: Map<BlankNodeView, BlankNodeView>,
) -> Result<Option<TripleView>, DecodeFailure>
    decreases triple,
{
    match term_instance(triple.subject, table, values, strings, bnodes) {
        Err(failure) => Err(failure),
        Ok(subject) => match as_subject(subject) {
            None => Ok(None),
            Some(subject) => match named_node_instance(triple.predicate, table, values, strings) {
                Err(failure) => Err(failure),
                Ok(None) => Ok(None),
                Ok(Some(predicate)) => match term_instance(
                    triple.object,
                    table,
                    values,
                    strings,
                    bnodes,
                ) {
                    Err(failure) => Err(failure),
                    Ok(None) => Ok(None),
                    Ok(Some(object)) => Ok(Some(TripleView { subject, predicate, object })),
                },
            },
        },
    }
}

/// The instance of a quad of a template for a tuple.
pub open spec fn quad_instance(
    quad: QuadPattern,
    table: Seq<PlanVariableView>,
    values: Bindings,
    strings: Map<u128, Seq<char>>,
    bnodes: Map<BlankNodeView, BlankNodeView>,
) -> Result<Option<QuadView>, DecodeFailure> {
    match term_instance(quad.subject, table, values, strings, bnodes) {
        Err(failure) => Err(failure),
        Ok(subject) => match as_subject(subject) {
            None => Ok(None),
            Some(subject) => match named_node_instance(quad.predicate, table, values, strings) {
                Err(failure) => Err(failure),
                Ok(None) => Ok(None),
                Ok(Some(predicate)) => match term_instance(
                    quad.object,
                    table,
                    values,
                    strings,
                    bnodes,
                ) {
                    Err(failure) => Err(failure),
                    Ok(None) => Ok(None),
                    Ok(Some(object)) => match graph_name_instance(
                        quad.graph_name,
                        table,
                        values,
                        strings,
                    ) {
                        Err(failure) => Err(failure),
                        Ok(None) => Ok(None),
                        Ok(Some(graph_name)) => Ok(
                            Some(QuadView { subject, predicate, object, graph_name }),
                        ),
                    },
                },
            },
        },
    }
}

fn decoding_error<T>(error: DecoderError<Unfailing>) -> (r: Result<T, EvaluationError>)
    requires
        error is Decoder,
    ensures
        r matches Err(EvaluationError::Decoding { msg }) && msg == error->msg,
{
    match error {
        DecoderError::Decoder { msg } => Err(EvaluationError::Decoding { msg }),
        DecoderError::Store(_) => Err(EvaluationError::Conflict),
    }
}

/// Makes the instance of a term of a template for a tuple.
pub fn convert_term_or_var(
    term: &TermPattern,
    variables: &Vec<PlanVariable>,
    values: &EncodedTuple,
    reader: &StorageReader,
    bnodes: &BlankNodeMap,
) -> (r: Result<Option<Term>, EvaluationError>)
    requires
        reader.strings_wf(),
        bnodes.wf(),
    ensures
        instance_outcome(
            r,
            term_instance(*term, slot_views(variables@), values@, reader.strings(), bnodes@),
        ),
    decreases *term,
{
    match term {
        TermPattern::NamedNode(node) => Ok(Some(Term::NamedNode(node.duplicate()))),
        TermPattern::BlankNode(node) => match bnodes.get(node) {
            Some(image) => Ok(Some(Term::BlankNode(image))),
            None => Ok(None),
        },
        TermPattern::Literal(literal) => Ok(Some(Term::Literal(literal.duplicate()))),
        TermPattern::Triple(triple) => {
            match convert_triple_pattern(triple, variables, values, reader, bnodes) {
                Ok(Some(triple)) => Ok(Some(Term::Triple(Box::new(triple)))),
                Ok(None) => Ok(None),
                Err(error) => Err(error),
            }
        },
        TermPattern::Variable(v) => match lookup_variable(v, variables, values) {
            None => Ok(None),
            Some(encoded) => match decode_term(reader, &encoded) {
                Ok(term) => Ok(Some(term)),
                Err(error) => decoding_error(error),
            },
        },
    }
}

/// Makes the instance of an IRI of a template for a tuple.
pub fn convert_named_node_or_var(
    term: &NamedNodePattern,
    variables: &Vec<PlanVariable>,
    values: &EncodedTuple,
    reader: &StorageReader,
) -> (r: Result<Option<NamedNode>, EvaluationError>)
    requires
        reader.strings_wf(),
    ensures
        instance_outcome(
            r,
            named_node_instance(*term, slot_views(variables@), values@, reader.strings()),
        ),
{
    match term {
        NamedNodePattern::NamedNode(node) => Ok(Some(node.duplicate())),
        NamedNodePattern::Variable(v) => match lookup_variable(v, variables, values) {
            None => Ok(None),
            Some(encoded) => match decode_named_node(reader, &encoded) {
                Ok(node) => Ok(Some(node)),
                Err(error) => decoding_error(error),
            },
        },
    }
}

/// Makes the instance of the graph of a template for a tuple.
pub fn convert_graph_name_or_var(
    term: &GraphNamePattern,
    variables: &Vec<PlanVariable>,
    values: &EncodedTuple,
    reader: &StorageReader,
) -> (r: Result<Option<GraphName>, EvaluationError>)
    requires
        reader.strings_wf(),
    ensures
        instance_outcome(
            r,
            graph_name_instance(*term, slot_views(variables@), values@, reader.strings()),
        ),
{
    match term {
        GraphNamePattern::NamedNode(node) => Ok(Some(GraphName::NamedNode(node.duplicate()))),
        GraphNamePattern::DefaultGraph => Ok(Some(GraphName::DefaultGraph)),
        GraphNamePattern::Variable(v) => match lookup_variable(v, variables, values) {
            None => Ok(None),
            Some(encoded) => {
                if encoded.is_default_graph() {
                    Ok(Some(GraphName::DefaultGraph))
                } else {
                    match decode_named_node(reader, &encoded) {
                        Ok(node) => Ok(Some(GraphName::NamedNode(node))),
                        Err(error) => decoding_error(error),
                    }
                }
            },
        },
    }
}

fn term_as_subject(term: Option<Term>) -> (r: Option<Subject>)
    ensures
        r is Some <==> as_subject(option_term_view(term)) is Some,
        r matches Some(subject) ==> Some(subject@) == as_subject(option_term_view(term)),
{
    match term {
        Some(Term::NamedNode(node)) => Some(Subject::NamedNode(node)),
        Some(Term::BlankNode(node)) => Some(Subject::BlankNode(node)),
        Some(Term::Triple(triple)) => Some(Subject::Triple(triple)),
        Some(Term::Literal(_)) => None,
        None => None,
    }
}

/// What a term is, if there is one.
pub open spec fn option_term_view(term: Option<Term>) -> Option<TermView> {
    match term {
        Some(term) => Some(term@),
        None => None,
    }
}

/// Makes the instance of a triple of a template for a tuple.
pub fn convert_triple_pattern(
    triple: &TriplePattern,
    variables: &Vec<PlanVariable>,
    values: &EncodedTuple,
    reader: &StorageReader,
    bnodes: &BlankNodeMap,
) -> (r: Result<Option<Triple>, EvaluationError>)
    requires
        reader.strings_wf(),
        bnodes.wf(),
    ensures
        instance_outcome(
            r,
            triple_instance(*triple, slot_views(variables@), values@, reader.strings(), bnodes@),
        ),
    decreases *triple,
{
    let subject = match convert_term_or_var(&triple.subject, variables, values, reader, bnodes) {
        Ok(term) => match term_as_subject(term) {
            Some(subject) => subject,
            None => { return Ok(None); },
        },
        Err(error) => { return Err(error); },
    };
    let predicate = match convert_named_node_or_var(&triple.predicate, variables, values, reader) {
        Ok(Some(predicate)) => predicate,
        Ok(None) => { return Ok(None); },
        Err(error) => { return Err(error); },
    };
    let object = match convert_term_or_var(&triple.object, variables, values, reader, bnodes) {
        Ok(Some(object)) => object,
        Ok(None) => { return Ok(None); },
        Err(error) => { return Err(error); },
    };
    Ok(Some(Triple { subject, predicate, object }))
}

/// Makes the instance of a quad of a template for a tuple.
pub fn convert_quad_pattern(
    quad: &QuadPattern,
    variables: &Vec<PlanVariable>,
    values: &EncodedTuple,
    reader: &StorageReader,
    bnodes: &BlankNodeMap,
) -> (r: Result<Option<Quad>, EvaluationError>)
    requires
        reader.strings_wf(),
        bnodes.wf(),
    ensures
        instance_outcome(
            r,
            quad_instance(*quad, slot_views(variables@), values@, reader.strings(), bnodes@),
        ),
{
    let subject = match convert_term_or_var(&quad.subject, variables, values, reader, bnodes) {
        Ok(term) => match term_as_subject(term) {
            Some(subject) => subject,
            None => { return Ok(None); },
        },
        Err(error) => { return Err(error); },
    };
    let predicate = match convert_named_node_or_var(&quad.predicate, variables, values, reader) {
        Ok(Some(predicate)) => predicate,
        Ok(None) => { return Ok(None); },
        Err(error) => { return Err(error); },
    };
    let object = match convert_term_or_var(&quad.object, variables, values, reader, bnodes) {
        Ok(Some(object)) => object,
        Ok(None) => { return Ok(None); },
        Err(error) => { return Err(error); },
    };
    let graph_name = match convert_graph_name_or_var(&quad.graph_name, variables, values, reader) {
        Ok(Some(graph_name)) => graph_name,
        Ok(None) => { return Ok(None); },
        Err(error) => { return Err(error); },
    };
    Ok(Some(Quad { subject, predicate, object, graph_name }))
}

/// One change of the store: a quad to take out, or a quad to add.
#[derive(Debug)]
pub enum Change {
    Remove(Quad),
    Insert(Quad),
}

/// What a change is.
pub enum ChangeView {
    Remove(QuadView),
    Insert(QuadView),
}

impl View for Change {
    type V = ChangeView;

    open spec fn view(&self) -> ChangeView {
        match *self {
            Change::Remove(quad) => ChangeView::Remove(quad@),
            Change::Insert(quad) => ChangeView::Insert(quad@),
        }
    }
}

/// What some changes are, one for one.
pub open spec fn change_views(changes: Seq<Change>) -> Seq<ChangeView> {
    Seq::new(changes.len(), |i: int| changes[i]@)
}

/// The named graphs that a store knows once a quad is added: those that it
/// knew, and the graph of the quad where it is a named one.
pub open spec fn graphs_after_insert(graphs: Set<EncodedTerm>, graph_name: GraphNameView) -> Set<
    EncodedTerm,
> {
    if graph_name is DefaultGraph {
        graphs
    } else {
        graphs.insert(encoded_graph_name(graph_name))
    }
}

/// The named graphs that a store knows after some changes: every quad that
/// is added makes its graph known, and no quad that is taken out makes its
/// graph unknown.
pub open spec fn changed_graphs(graphs: Set<EncodedTerm>, changes: Seq<ChangeView>) -> Set<
    EncodedTerm,
>
    decreases changes.len(),
{
    if changes.len() == 0 {
        graphs
    } else {
        let before = changed_graphs(graphs, changes.drop_last());
        match changes.last() {
            ChangeView::Remove(_) => before,
            ChangeView::Insert(quad) => graphs_after_insert(before, quad.graph_name),
        }
    }
}

/// The named graphs that a store knows once some quads are added.
pub open spec fn graphs_with(graphs: Set<EncodedTerm>, data: Seq<Quad>) -> Set<EncodedTerm>
    decreases data.len(),
{
    if data.len() == 0 {
        graphs
    } else {
        graphs_after_insert(graphs_with(graphs, data.drop_last()), data.last()@.graph_name)
    }
}

/// The named graphs that a store knows once some triples are loaded into a
/// graph.
pub open spec fn graphs_loaded(graphs: Set<EncodedTerm>, triples: nat, to: GraphNameView) -> Set<
    EncodedTerm,
> {
    if triples == 0 {
        graphs
    } else {
        graphs_after_insert(graphs, to)
    }
}

/// The string table of a store once a quad is added: as it was where the
/// store holds the quad, else with the texts of the quad interned, and with
/// them the name of its graph where that graph was not known.
pub open spec fn table_after_insert(
    quads: Set<EncodedQuad>,
    graphs: Set<EncodedTerm>,
    table: Map<u128, StrEntryView>,
    quad: QuadView,
) -> Map<u128, StrEntryView> {
    if quads.contains(encoded_quad(quad)) {
        table
    } else if quad.graph_name is DefaultGraph || graphs.contains(
        encoded_graph_name(quad.graph_name),
    ) {
        table_insert_all(table, quad_strings(quad))
    } else {
        table_insert_all(table, quad_strings(quad) + graph_name_strings(quad.graph_name))
    }
}

/// The string table of a store once a quad is taken out: as it was where
/// the store does not hold the quad, else with one reference less to each
/// text of the quad.
pub open spec fn table_after_remove(
    quads: Set<EncodedQuad>,
    table: Map<u128, StrEntryView>,
    quad: QuadView,
) -> Map<u128, StrEntryView> {
    if quads.contains(encoded_quad(quad)) {
        table_remove_all(table, quad_hashes(encoded_quad(quad)))
    } else {
        table
    }
}

/// The string table of a store after some changes, one after the other.
pub open spec fn changed_table(
    quads: Set<EncodedQuad>,
    graphs: Set<EncodedTerm>,
    table: Map<u128, StrEntryView>,
    changes: Seq<ChangeView>,
) -> Map<u128, StrEntryView>
    decreases changes.len(),
{
    if changes.len() == 0 {
        table
    } else {
        let done = changes.drop_last();
        let before = changed_table(quads, graphs, table, done);
        match changes.last() {
            ChangeView::Remove(quad) => table_after_remove(
                changed_quads(quads, done),
                before,
                quad,
            ),
            ChangeView::Insert(quad) => table_after_insert(
                changed_quads(quads, done),
                changed_graphs(graphs, done),
                before,
                quad,
            ),
        }
    }
}

/// The string table of a state after some changes.
pub open spec fn table_changed(before: StorageReader, changes: Seq<ChangeView>) -> Map<
    u128,
    StrEntryView,
> {
    changed_table(before.quads(), before.named_graphs(), before.table(), changes)
}

/// The string table of a store once a graph is made known: as it was where
/// the graph was known, else with the name of the graph interned.
pub open spec fn created_table(
    graphs: Set<EncodedTerm>,
    table: Map<u128, StrEntryView>,
    graph: Seq<char>,
) -> Map<u128, StrEntryView> {
    if graphs.contains(encoded_named_node(graph)) {
        table
    } else {
        table_insert_all(table, graph_name_strings(GraphNameView::NamedNode(graph)))
    }
}

/// The blank nodes of some quads: those of their subjects and of their
/// objects.
pub open spec fn data_blank_nodes(data: Seq<Quad>) -> Set<BlankNodeView>
    decreases data.len(),
{
    if data.len() == 0 {
        Set::empty()
    } else {
        data_blank_nodes(data.drop_last()).union(quad_blank_nodes(data.last()@))
    }
}

/// The changes that add some quads, one for one.
pub open spec fn insertions(quads: Seq<QuadView>) -> Seq<ChangeView> {
    Seq::new(quads.len(), |i: int| ChangeView::Insert(quads[i]))
}

/// The changes that take some quads out, one for one.
pub open spec fn removals(quads: Seq<QuadView>) -> Seq<ChangeView> {
    Seq::new(quads.len(), |i: int| ChangeView::Remove(quads[i]))
}

/// What some quads are, one for one.
pub open spec fn quad_views(data: Seq<Quad>) -> Seq<QuadView> {
    Seq::new(data.len(), |i: int| data[i]@)
}

/// Some quads with what takes the place of their blank nodes, one for one.
pub open spec fn renamed_data(data: Seq<Quad>, bnodes: Map<BlankNodeView, BlankNodeView>) -> Seq<
    QuadView,
> {
    Seq::new(data.len(), |i: int| renamed_quad(data[i]@, bnodes))
}

/// Some triples as quads of a graph, one for one.
pub open spec fn loaded_data(triples: Seq<Triple>, to: GraphNameView) -> Seq<QuadView> {
    Seq::new(triples.len(), |i: int| triples[i]@.in_graph(to))
}

/// The quads of a store after some changes, one after the other.
pub open spec fn changed_quads(quads: Set<EncodedQuad>, changes: Seq<ChangeView>) -> Set<
    EncodedQuad,
>
    decreases changes.len(),
{
    if changes.len() == 0 {
        quads
    } else {
        let before = changed_quads(quads, changes.drop_last());
        match changes.last() {
            ChangeView::Remove(quad) => quads_after_remove(before, quad),
            ChangeView::Insert(quad) => quads_after_insert(before, quad),
        }
    }
}

/// The changes of one solution: the instances of the templates to delete,
/// made without blank nodes, then the instances of the templates to insert,
/// made with the blank nodes of the solution. A template whose instance
/// cannot be made is passed over.
pub open spec fn template_changes(
    templates: Seq<QuadPattern>,
    insert: bool,
    table: Seq<PlanVariableView>,
    values: Bindings,
    strings: Map<u128, Seq<char>>,
    bnodes: Map<BlankNodeView, BlankNodeView>,
) -> Result<Seq<ChangeView>, DecodeFailure>
    decreases templates.len(),
{
    if templates.len() == 0 {
        Ok(Seq::empty())
    } else {
        match template_changes(templates.drop_last(), insert, table, values, strings, bnodes) {
            Err(failure) => Err(failure),
            Ok(before) => match quad_instance(templates.last(), table, values, strings, bnodes) {
                Err(failure) => Err(failure),
                Ok(None) => Ok(before),
                Ok(Some(quad)) => Ok(
                    before.push(
                        if insert {
                            ChangeView::Insert(quad)
                        } else {
                            ChangeView::Remove(quad)
                        },
                    ),
                ),
            },
        }
    }
}

/// What the making of some changes may give: the changes, or the failure
/// of a decoding.
pub open spec fn changes_outcome(
    r: Result<Vec<Change>, EvaluationError>,
    expected: Result<Seq<ChangeView>, DecodeFailure>,
) -> bool {
    match r {
        Ok(made) => expected == Ok::<Seq<ChangeView>, DecodeFailure>(change_views(made@)),
        Err(error) => expected is Err && (error matches EvaluationError::Decoding { msg } && msg@
            == failure_text(expected->Err_0)),
    }
}

/// Makes the changes that some templates make for a tuple.
pub fn make_template_changes(
    templates: &Vec<QuadPattern>,
    insert: bool,
    variables: &Vec<PlanVariable>,
    values: &EncodedTuple,
    reader: &StorageReader,
    bnodes: &BlankNodeMap,
) -> (r: Result<Vec<Change>, EvaluationError>)
    requires
        reader.strings_wf(),
        bnodes.wf(),
    ensures
        changes_outcome(
            r,
            template_changes(
                templates@,
                insert,
                slot_views(variables@),
                values@,
                reader.strings(),
                bnodes@,
            ),
        ),
{
    let ghost table = slot_views(variables@);
    let ghost strings = reader.strings();
    let mut made: Vec<Change> = Vec::new();
    let mut i: usize = 0;
    proof {
        assert(templates@.take(0) =~= Seq::<QuadPattern>::empty());
        assert(change_views(made@) =~= Seq::<ChangeView>::empty());
    }
    while i < templates.len()
        invariant
            i <= templates@.len(),
            reader.strings_wf(),
            bnodes.wf(),
            table == slot_views(variables@),
            strings == reader.strings(),
            template_changes(templates@.take(i as int), insert, table, values@, strings, bnodes@)
                == Ok::<Seq<ChangeView>, DecodeFailure>(change_views(made@)),
        decreases templates@.len() - i,
    {
        let ghost before = change_views(made@);
        let ghost front = templates@.take(i as int);
        let ghost next = templates@.take(i as int + 1);
        proof {
            assert(next.drop_last() =~= front);
            assert(next.last() == templates@[i as int]);
        }
        let instance = convert_quad_pattern(&templates[i], variables, values, reader, bnodes);
        match instance {
            Err(error) => {
                proof {
                    assert(template_changes(next, insert, table, values@, strings, bnodes@)
                        is Err);
                    lemma_template_changes_fail(
                        templates@,
                        insert,
                        table,
                        values@,
                        strings,
                        bnodes@,
                        i as int + 1,
                    );
                }
                return Err(error);
            },
            Ok(None) => {
                proof {
                    assert(template_changes(next, insert, table, values@, strings, bnodes@)
                        == Ok::<Seq<ChangeView>, DecodeFailure>(before));
                }
            },
            Ok(Some(quad)) => {
                let change = if insert {
                    Change::Insert(quad)
                } else {
                    Change::Remove(quad)
                };
                let ghost view = change@;
                made.push(change);
                proof {
                    assert(change_views(made@) =~= before.push(view));
                    assert(template_changes(next, insert, table, values@, strings, bnodes@)
                        == Ok::<Seq<ChangeView>, DecodeFailure>(before.push(view)));
                }
            },
        }
        i += 1;
    }
    proof {
        assert(templates@.take(templates@.len() as int) =~= templates@);
    }
    Ok(made)
}

proof fn lemma_template_changes_fail(
    templates: Seq<QuadPattern>,
    insert: bool,
    table: Seq<PlanVariableView>,
    values: Bindings,
    strings: Map<u128, Seq<char>>,
    bnodes: Map<BlankNodeView, BlankNodeView>,
    n: int,
)
    requires
        0 <= n <= templates.len(),
        template_changes(templates.take(n), insert, table, values, strings, bnodes) is Err,
    ensures
        template_changes(templates, insert, table, values, strings, bnodes) == template_changes(
            templates.take(n),
            insert,
            table,
            values,
            strings,
            bnodes,
        ),
    decreases templates.len() - n,
{
    if n < templates.len() {
        assert(templates.take(n + 1).drop_last() =~= templates.take(n));
        lemma_template_changes_fail(templates, insert, table, values, strings, bnodes, n + 1);
    } else {
        assert(templates.take(n) =~= templates);
    }
}

/// The blank nodes of a term of a template.
pub open spec fn pattern_blank_nodes(term: TermPattern) -> Set<BlankNodeView>
    decreases term,
{
    match term {
        TermPattern::BlankNode(node) => set![node@],
        TermPattern::Triple(triple) => pattern_blank_nodes(triple.subject).union(
            pattern_blank_nodes(triple.object),
        ),
        _ => Set::empty(),
    }
}

/// The blank nodes of some templates: those of their subjects and of their
/// objects.
pub open spec fn templates_blank_nodes(templates: Seq<QuadPattern>) -> Set<BlankNodeView>
    decreases templates.len(),
{
    if templates.len() == 0 {
        Set::empty()
    } else {
        templates_blank_nodes(templates.drop_last()).union(
            pattern_blank_nodes(templates.last().subject),
        ).union(pattern_blank_nodes(templates.last().object))
    }
}

/// Gives a fresh blank node, of a number drawn at random, to every blank
/// node of a term of a template that has none. The others keep theirs.
fn allocate_in_term_pattern(term: &TermPattern, bnodes: &mut BlankNodeMap)
    requires
        old(bnodes).wf(),
    ensures
        final(bnodes).wf(),
        old(bnodes)@.submap_of(final(bnodes)@),
        grown_from(final(bnodes)@, old(bnodes)@),
        final(bnodes)@.dom() == old(bnodes)@.dom().union(pattern_blank_nodes(*term)),
    decreases *term,
{
    let ghost start = bnodes@;
    match term {
        TermPattern::BlankNode(node) => {
            bnodes.allocate(node);
            proof {
                assert(start.dom().insert(node@) =~= start.dom().union(set![node@]));
            }
        },
        TermPattern::Triple(triple) => {
            allocate_in_term_pattern(&triple.subject, bnodes);
            let ghost middle = bnodes@;
            allocate_in_term_pattern(&triple.object, bnodes);
            proof {
                lemma_grown_twice(start, middle, bnodes@);
                assert(bnodes@.dom() =~= start.dom().union(pattern_blank_nodes(*term)));
            }
        },
        _ => {
            proof {
                assert(start.dom() =~= start.dom().union(Set::<BlankNodeView>::empty()));
            }
        },
    }
}

/// Gives a fresh blank node, of a number drawn at random, to every blank
/// node of some templates that has none. The others keep theirs.
pub fn allocate_in_templates(templates: &Vec<QuadPattern>, bnodes: &mut BlankNodeMap)
    requires
        old(bnodes).wf(),
    ensures
        final(bnodes).wf(),
        old(bnodes)@.submap_of(final(bnodes)@),
        grown_from(final(bnodes)@, old(bnodes)@),
        final(bnodes)@.dom() == old(bnodes)@.dom().union(templates_blank_nodes(templates@)),
{
    let mut i: usize = 0;
    proof {
        assert(templates@.take(0) =~= Seq::<QuadPattern>::empty());
        assert(bnodes@.dom() =~= bnodes@.dom().union(templates_blank_nodes(templates@.take(0))));
    }
    while i < templates.len()
        invariant
            i <= templates@.len(),
            bnodes.wf(),
            grown_from(bnodes@, old(bnodes)@),
            bnodes@.dom() == old(bnodes)@.dom().union(
                templates_blank_nodes(templates@.take(i as int)),
            ),
        decreases templates@.len() - i,
    {
        let ghost start = bnodes@;
        allocate_in_term_pattern(&templates[i].subject, bnodes);
        let ghost middle = bnodes@;
        allocate_in_term_pattern(&templates[i].object, bnodes);
        proof {
            lemma_grown_twice(start, middle, bnodes@);
            lemma_grown_twice(old(bnodes)@, start, bnodes@);
            let next = templates@.take(i as int + 1);
            assert(next.drop_last() =~= templates@.take(i as int));
            assert(next.last() == templates@[i as int]);
            assert(bnodes@.dom() =~= old(bnodes)@.dom().union(templates_blank_nodes(next)));
        }
        i += 1;
    }
    proof {
        assert(templates@.take(templates@.len() as int) =~= templates@);
    }
}

/// What a triple that was fetched for a `LOAD` is to add.
pub open spec fn loaded_quads(triples: Seq<Triple>, to: GraphNameView) -> Set<EncodedQuad> {
    Set::new(
        |quad: EncodedQuad|
            exists|i: int|
                0 <= i < triples.len() && quad == encoded_quad(
                    (#[trigger] triples[i])@.in_graph(to),
                ),
    )
}

/// The encodings of some quads.
pub open spec fn encoded_quads(data: Seq<Quad>) -> Set<EncodedQuad> {
    Set::new(
        |quad: EncodedQuad|
            exists|i: int| 0 <= i < data.len() && quad == encoded_quad((#[trigger] data[i])@),
    )
}

/// The encodings of some quads, with what takes the place of their blank
/// nodes.
pub open spec fn encoded_renamed_quads(
    data: Seq<Quad>,
    bnodes: Map<BlankNodeView, BlankNodeView>,
) -> Set<EncodedQuad> {
    Set::new(
        |quad: EncodedQuad|
            exists|i: int|
                0 <= i < data.len() && quad == encoded_quad(
                    renamed_quad((#[trigger] data[i])@, bnodes),
                ),
    )
}

/// The quads of a store once the graphs of a target are cleared.
pub open spec fn cleared_quads(quads: Set<EncodedQuad>, target: GraphTarget) -> Set<EncodedQuad> {
    match target {
        GraphTarget::NamedNode(node) => quads.filter(
            |quad: EncodedQuad| quad.graph_name != encoded_named_node(node@),
        ),
        GraphTarget::DefaultGraph => quads.filter(
            |quad: EncodedQuad| quad.graph_name != EncodedTerm::DefaultGraph,
        ),
        GraphTarget::NamedGraphs => quads.filter(
            |quad: EncodedQuad| quad.graph_name == EncodedTerm::DefaultGraph,
        ),
        GraphTarget::AllGraphs => Set::empty(),
    }
}

/// The named graphs that a store knows once the graphs of a target are
/// dropped.
pub open spec fn dropped_graphs(graphs: Set<EncodedTerm>, target: GraphTarget) -> Set<EncodedTerm> {
    match target {
        GraphTarget::NamedNode(node) => graphs.remove(encoded_named_node(node@)),
        GraphTarget::DefaultGraph => graphs,
        GraphTarget::NamedGraphs => Set::empty(),
        GraphTarget::AllGraphs => Set::empty(),
    }
}

/// Whether an operation on the graphs of a target is in order: a named graph
/// has to be known, unless the operation is silent.
pub open spec fn target_is_there(graphs: Set<EncodedTerm>, target: GraphTarget) -> bool {
    match target {
        GraphTarget::NamedNode(node) => graphs.contains(encoded_named_node(node@)),
        _ => true,
    }
}

/// Evaluates the operations of an update in one transaction.
pub struct SimpleUpdateEvaluator {
    transaction: StorageWriter,
}

impl View for SimpleUpdateEvaluator {
    type V = StorageReader;

    closed spec fn view(&self) -> StorageReader {
        self.transaction@
    }
}

impl SimpleUpdateEvaluator {
    /// The version of the store from which the transaction started.
    pub closed spec fn base_version(&self) -> u64 {
        self.transaction.base_version()
    }

    /// An evaluator that writes through a transaction.
    pub fn new(transaction: StorageWriter) -> (r: Self)
        ensures
            r@ == transaction@,
            r.base_version() == transaction.base_version(),
    {
        Self { transaction }
    }

    /// Gives the transaction back, with what was written.
    pub fn into_transaction(self) -> (r: StorageWriter)
        ensures
            r@ == self@,
            r.base_version() == self.base_version(),
    {
        self.transaction
    }

    /// `INSERT DATA`: adds the quads, each blank node of the data replaced by
    /// a fresh one, the same throughout the operation.
    pub fn eval_insert_data(&mut self, data: &Vec<Quad>) -> (r: Result<(), EvaluationError>)
        requires
            old(self)@.wf(),
        ensures
            final(self)@.wf(),
            final(self).base_version() == old(self).base_version(),
            r is Ok,
            exists|bnodes: Map<BlankNodeView, BlankNodeView>|
                (forall|i: int| 0 <= i < data@.len() ==> quad_is_mapped(
                    (#[trigger] data@[i])@,
                    bnodes,
                )) && final(self)@.quads() == old(self)@.quads().union(
                    encoded_renamed_quads(data@, bnodes),
                ) && final(self)@.table() == table_changed(
                    old(self)@,
                    insertions(renamed_data(data@, bnodes)),
                ) && bnodes.dom() == data_blank_nodes(data@) && grown_from(bnodes, Map::empty()),
            final(self)@.named_graphs() == graphs_with(old(self)@.named_graphs(), data@),
    {
        let mut bnodes = BlankNodeMap::new();
        let mut i: usize = 0;
        proof {
            assert(bnodes@.dom() =~= data_blank_nodes(data@.take(0)));
            assert(self@.quads() =~= old(self)@.quads().union(
                encoded_renamed_quads(data@.take(0), bnodes@),
            ));
            assert(insertions(renamed_data(data@.take(0), bnodes@)) =~= Seq::<ChangeView>::empty());
        }
        while i < data.len()
            invariant
                i <= data@.len(),
                self@.wf(),
                self.base_version() == old(self).base_version(),
                bnodes.wf(),
                bnodes@.dom() == data_blank_nodes(data@.take(i as int)),
                grown_from(bnodes@, Map::empty()),
                forall|k: int| 0 <= k < i ==> quad_is_mapped((#[trigger] data@[k])@, bnodes@),
                self@.quads() == old(self)@.quads().union(
                    encoded_renamed_quads(data@.take(i as int), bnodes@),
                ),
                self@.named_graphs() == graphs_with(
                    old(self)@.named_graphs(),
                    data@.take(i as int),
                ),
                self@.quads() == changed_quads(
                    old(self)@.quads(),
                    insertions(renamed_data(data@.take(i as int), bnodes@)),
                ),
                self@.named_graphs() == changed_graphs(
                    old(self)@.named_graphs(),
                    insertions(renamed_data(data@.take(i as int), bnodes@)),
                ),
                self@.table() == table_changed(
                    old(self)@,
                    insertions(renamed_data(data@.take(i as int), bnodes@)),
                ),
            decreases data@.len() - i,
        {
            let ghost before_map = bnodes@;
            let ghost before_quads = self@.quads();
            allocate_in_quad(&data[i], &mut bnodes);
            let quad = convert_quad(&data[i], &bnodes);
            let _ = self.transaction.insert(&quad);
            proof {
                let done = data@.take(i as int);
                let next = data@.take(i as int + 1);
                assert(next.drop_last() =~= done);
                assert(next.last() == data@[i as int]);
                assert(quad@.graph_name == data@[i as int]@.graph_name);
                lemma_grown_twice(Map::empty(), before_map, bnodes@);
                assert forall|k: int| 0 <= k < i + 1 implies quad_is_mapped(
                    (#[trigger] data@[k])@,
                    bnodes@,
                ) by {
                    if k < i {
                        lemma_subject_stays_mapped(data@[k]@.subject, before_map, bnodes@);
                        lemma_term_stays_mapped(data@[k]@.object, before_map, bnodes@);
                    }
                }
                assert forall|e: EncodedQuad|
                    encoded_renamed_quads(next, bnodes@).contains(e) <==> encoded_renamed_quads(
                        done,
                        before_map,
                    ).contains(e) || e == encoded_quad(quad@) by {
                    if encoded_renamed_quads(next, bnodes@).contains(e) {
                        let k = choose|k: int|
                            0 <= k < next.len() && e == encoded_quad(
                                renamed_quad((#[trigger] next[k])@, bnodes@),
                            );
                        if k < i {
                            lemma_subject_stays_mapped(data@[k]@.subject, before_map, bnodes@);
                            lemma_term_stays_mapped(data@[k]@.object, before_map, bnodes@);
                            assert(done[k] == data@[k]);
                            assert(e == encoded_quad(renamed_quad(done[k]@, before_map)));
                        }
                    }
                    if encoded_renamed_quads(done, before_map).contains(e) {
                        let k = choose|k: int|
                            0 <= k < done.len() && e == encoded_quad(
                                renamed_quad((#[trigger] done[k])@, before_map),
                            );
                        lemma_subject_stays_mapped(data@[k]@.subject, before_map, bnodes@);
                        lemma_term_stays_mapped(data@[k]@.object, before_map, bnodes@);
                        assert(next[k] == data@[k]);
                        assert(e == encoded_quad(renamed_quad(next[k]@, bnodes@)));
                    }
                    if e == encoded_quad(quad@) {
                        assert(next[i as int] == data@[i as int]);
                        assert(e == encoded_quad(renamed_quad(next[i as int]@, bnodes@)));
                    }
                }
                assert(self@.quads() =~= old(self)@.quads().union(
                    encoded_renamed_quads(next, bnodes@),
                ));
                let made = insertions(renamed_data(next, bnodes@));
                assert(made.drop_last() =~= insertions(renamed_data(done, before_map))) by {
                    assert forall|k: int| 0 <= k < i implies renamed_quad(
                        (#[trigger] done[k])@,
                        before_map,
                    ) == renamed_quad(next[k]@, bnodes@) by {
                        lemma_subject_stays_mapped(data@[k]@.subject, before_map, bnodes@);
                        lemma_term_stays_mapped(data@[k]@.object, before_map, bnodes@);
                    }
                }
                assert(made.last() == ChangeView::Insert(quad@));
            }
            i += 1;
        }
        proof {
            assert(data@.take(data@.len() as int) =~= data@);
        }
        Ok(())
    }

    /// `DELETE DATA`: takes the quads out.
    pub fn eval_delete_data(&mut self, data: &Vec<Quad>) -> (r: Result<(), EvaluationError>)
        requires
            old(self)@.wf(),
        ensures
            final(self)@.wf(),
            final(self).base_version() == old(self).base_version(),
            r is Ok,
            final(self)@.quads() == old(self)@.quads().difference(encoded_quads(data@)),
            final(self)@.graph_names() == old(self)@.graph_names(),
            final(self)@.table() == table_changed(old(self)@, removals(quad_views(data@))),
    {
        let mut i: usize = 0;
        proof {
            assert(self@.quads() =~= old(self)@.quads().difference(
                encoded_quads(data@.take(0)),
            ));
            assert(removals(quad_views(data@.take(0))) =~= Seq::<ChangeView>::empty());
        }
        while i < data.len()
            invariant
                i <= data@.len(),
                self@.wf(),
                self.base_version() == old(self).base_version(),
                self@.quads() == old(self)@.quads().difference(
                    encoded_quads(data@.take(i as int)),
                ),
                self@.graph_names() == old(self)@.graph_names(),
                self@.quads() == changed_quads(
                    old(self)@.quads(),
                    removals(quad_views(data@.take(i as int))),
                ),
                self@.table() == table_changed(
                    old(self)@,
                    removals(quad_views(data@.take(i as int))),
                ),
            decreases data@.len() - i,
        {
            let _ = self.transaction.remove(&data[i]);
            proof {
                let done = data@.take(i as int);
                let next = data@.take(i as int + 1);
                let made = removals(quad_views(next));
                assert(made.drop_last() =~= removals(quad_views(done)));
                assert(made.last() == ChangeView::Remove(data@[i as int]@));
                assert forall|e: EncodedQuad|
                    encoded_quads(next).contains(e) <==> encoded_quads(done).contains(e) || e
                        == encoded_quad(data@[i as int]@) by {
                    if encoded_quads(next).contains(e) {
                        let k = choose|k: int|
                            0 <= k < next.len() && e == encoded_quad((#[trigger] next[k])@);
                        if k < i {
                            assert(done[k] == next[k]);
                        }
                    }
                    if encoded_quads(done).contains(e) {
                        let k = choose|k: int|
                            0 <= k < done.len() && e == encoded_quad((#[trigger] done[k])@);
                        assert(next[k] == done[k]);
                    }
                    if e == encoded_quad(data@[i as int]@) {
                        assert(next[i as int] == data@[i as int]);
                    }
                }
                assert(self@.quads() =~= old(self)@.quads().difference(encoded_quads(next)));
            }
            i += 1;
        }
        proof {
            assert(data@.take(data@.len() as int) =~= data@);
        }
        Ok(())
    }

    /// `LOAD`: adds the triples that were fetched to a graph.
    pub fn eval_load(&mut self, triples: &Vec<Triple>, to: &GraphName) -> (r: Result<
        (),
        EvaluationError,
    >)
        requires
            old(self)@.wf(),
        ensures
            final(self)@.wf(),
            final(self).base_version() == old(self).base_version(),
            r is Ok,
            final(self)@.quads() == old(self)@.quads().union(loaded_quads(triples@, to@)),
            final(self)@.named_graphs() == graphs_loaded(
                old(self)@.named_graphs(),
                triples@.len(),
                to@,
            ),
            final(self)@.table() == table_changed(
                old(self)@,
                insertions(loaded_data(triples@, to@)),
            ),
    {
        let mut i: usize = 0;
        proof {
            assert(self@.quads() =~= old(self)@.quads().union(
                loaded_quads(triples@.take(0), to@),
            ));
            assert(insertions(loaded_data(triples@.take(0), to@)) =~= Seq::<ChangeView>::empty());
        }
        while i < triples.len()
            invariant
                i <= triples@.len(),
                self@.wf(),
                self.base_version() == old(self).base_version(),
                self@.quads() == old(self)@.quads().union(
                    loaded_quads(triples@.take(i as int), to@),
                ),
                self@.named_graphs() == graphs_loaded(old(self)@.named_graphs(), i as nat, to@),
                self@.quads() == changed_quads(
                    old(self)@.quads(),
                    insertions(loaded_data(triples@.take(i as int), to@)),
                ),
                self@.named_graphs() == changed_graphs(
                    old(self)@.named_graphs(),
                    insertions(loaded_data(triples@.take(i as int), to@)),
                ),
                self@.table() == table_changed(
                    old(self)@,
                    insertions(loaded_data(triples@.take(i as int), to@)),
                ),
            decreases triples@.len() - i,
        {
            let quad = triples[i].duplicate().in_graph(to.duplicate());
            let ghost graphs = self@.named_graphs();
            let _ = self.transaction.insert(&quad);
            proof {
                assert(quad@.graph_name == to@);
                let made = insertions(loaded_data(triples@.take(i as int + 1), to@));
                assert(made.drop_last() =~= insertions(
                    loaded_data(triples@.take(i as int), to@),
                ));
                assert(made.last() == ChangeView::Insert(quad@));
                assert(self@.named_graphs() =~= graphs_loaded(
                    old(self)@.named_graphs(),
                    (i + 1) as nat,
                    to@,
                )) by {
                    assert(self@.named_graphs() == graphs_after_insert(graphs, to@));
                }
                let done = triples@.take(i as int);
                let next = triples@.take(i as int + 1);
                assert forall|e: EncodedQuad|
                    loaded_quads(next, to@).contains(e) <==> loaded_quads(done, to@).contains(e)
                        || e == encoded_quad(quad@) by {
                    if loaded_quads(next, to@).contains(e) {
                        let k = choose|k: int|
                            0 <= k < next.len() && e == encoded_quad(
                                (#[trigger] next[k])@.in_graph(to@),
                            );
                        if k < i {
                            assert(done[k] == next[k]);
                        }
                    }
                    if loaded_quads(done, to@).contains(e) {
                        let k = choose|k: int|
                            0 <= k < done.len() && e == encoded_quad(
                                (#[trigger] done[k])@.in_graph(to@),
                            );
                        assert(next[k] == done[k]);
                    }
                    if e == encoded_quad(quad@) {
                        assert(next[i as int] == triples@[i as int]);
                    }
                }
                assert(self@.quads() =~= old(self)@.quads().union(loaded_quads(next, to@)));
            }
            i += 1;
        }
        proof {
            assert(triples@.take(triples@.len() as int) =~= triples@);
        }
        Ok(())
    }

    /// `CREATE`: makes a graph known. It is an error that the graph is known,
    /// unless the operation is silent.
    pub fn eval_create(&mut self, graph_name: &NamedNode, silent: bool) -> (r: Result<
        (),
        EvaluationError,
    >)
        requires
            old(self)@.wf(),
        ensures
            final(self)@.wf(),
            final(self).base_version() == old(self).base_version(),
            r is Ok <==> silent || !old(self)@.named_graphs().contains(
                encoded_named_node(graph_name@),
            ),
            r matches Err(error) ==> (error matches EvaluationError::GraphAlreadyExists { graph }
                && graph@ == graph_name@),
            final(self)@.quads() == old(self)@.quads(),
            final(self)@.named_graphs() == old(self)@.named_graphs().insert(
                encoded_named_node(graph_name@),
            ),
            final(self)@.table() == created_table(
                old(self)@.named_graphs(),
                old(self)@.table(),
                graph_name@,
            ),
    {
        let name = GraphName::NamedNode(graph_name.duplicate());
        if self.transaction.insert_named_graph(&name) || silent {
            Ok(())
        } else {
            Err(EvaluationError::GraphAlreadyExists { graph: copy_str(graph_name.as_str()) })
        }
    }

    /// `CLEAR`: takes the quads of the graphs of a target out. The graphs
    /// stay known. It is an error that a named graph is not known, unless the
    /// operation is silent.
    pub fn eval_clear(&mut self, graph: &GraphTarget, silent: bool) -> (r: Result<
        (),
        EvaluationError,
    >)
        requires
            old(self)@.wf(),
        ensures
            final(self)@.wf(),
            final(self).base_version() == old(self).base_version(),
            r is Ok <==> silent || target_is_there(old(self)@.named_graphs(), *graph),
            r matches Err(error) ==> (error matches EvaluationError::GraphDoesNotExist { graph: name }
                && (*graph matches GraphTarget::NamedNode(node) && name@ == node@)),
            final(self)@.quads() == if target_is_there(old(self)@.named_graphs(), *graph) {
                cleared_quads(old(self)@.quads(), *graph)
            } else {
                old(self)@.quads()
            },
            final(self)@.graph_names() == old(self)@.graph_names(),
            texts_kept(final(self)@.table(), old(self)@.table()),
    {
        match graph {
            GraphTarget::NamedNode(graph_name) => {
                let name = GraphName::NamedNode(graph_name.duplicate());
                let encoded = EncodedTerm::from_named_node(graph_name);
                if self.transaction.reader().contains_named_graph(&encoded) {
                    self.transaction.clear_graph(&name);
                    Ok(())
                } else if silent {
                    Ok(())
                } else {
                    Err(
                        EvaluationError::GraphDoesNotExist {
                            graph: copy_str(graph_name.as_str()),
                        },
                    )
                }
            },
            GraphTarget::DefaultGraph => {
                self.transaction.clear_graph(&GraphName::DefaultGraph);
                Ok(())
            },
            GraphTarget::NamedGraphs => {
                self.transaction.clear_all_named_graphs();
                Ok(())
            },
            GraphTarget::AllGraphs => {
                self.transaction.clear_all_graphs();
                Ok(())
            },
        }
    }

    /// `DROP`: takes the graphs of a target out of the store, with their
    /// quads; the default graph is only emptied. It is an error that a named
    /// graph is not known, unless the operation is silent.
    pub fn eval_drop(&mut self, graph: &GraphTarget, silent: bool) -> (r: Result<
        (),
        EvaluationError,
    >)
        requires
            old(self)@.wf(),
        ensures
            final(self)@.wf(),
            final(self).base_version() == old(self).base_version(),
            r is Ok <==> silent || target_is_there(old(self)@.named_graphs(), *graph),
            r matches Err(error) ==> (error matches EvaluationError::GraphDoesNotExist { graph: name }
                && (*graph matches GraphTarget::NamedNode(node) && name@ == node@)),
            final(self)@.quads() == cleared_quads(old(self)@.quads(), *graph),
            final(self)@.named_graphs() == dropped_graphs(old(self)@.named_graphs(), *graph),
            texts_kept(final(self)@.table(), old(self)@.table()),
            *graph is AllGraphs ==> no_key_is_left(final(self)@),
    {
        match graph {
            GraphTarget::NamedNode(graph_name) => {
                let name = GraphName::NamedNode(graph_name.duplicate());
                if self.transaction.remove_named_graph(&name) || silent {
                    Ok(())
                } else {
                    Err(
                        EvaluationError::GraphDoesNotExist {
                            graph: copy_str(graph_name.as_str()),
                        },
                    )
                }
            },
            GraphTarget::DefaultGraph => {
                self.transaction.clear_graph(&GraphName::DefaultGraph);
                Ok(())
            },
            GraphTarget::NamedGraphs => {
                self.transaction.remove_all_named_graphs();
                Ok(())
            },
            GraphTarget::AllGraphs => {
                self.transaction.clear();
                Ok(())
            },
        }
    }

    /// Makes the changes of a list to the store, one after the other.
    pub fn apply_changes(&mut self, changes: &Vec<Change>)
        requires
            old(self)@.wf(),
        ensures
            final(self)@.wf(),
            final(self).base_version() == old(self).base_version(),
            final(self)@.quads() == changed_quads(old(self)@.quads(), change_views(changes@)),
            final(self)@.named_graphs() == changed_graphs(
                old(self)@.named_graphs(),
                change_views(changes@),
            ),
            final(self)@.table() == table_changed(old(self)@, change_views(changes@)),
            changes@.len() == 0 ==> final(self)@.same_as(&old(self)@),
    {
        let mut i: usize = 0;
        proof {
            assert(change_views(changes@.take(0)) =~= Seq::<ChangeView>::empty());
            assert forall|index: crate::storage::index::QuadIndex| #[trigger]
                self@.index_quads(index) == old(self)@.index_quads(index) by {}
        }
        while i < changes.len()
            invariant
                i <= changes@.len(),
                self@.wf(),
                self.base_version() == old(self).base_version(),
                self@.quads() == changed_quads(
                    old(self)@.quads(),
                    change_views(changes@.take(i as int)),
                ),
                self@.named_graphs() == changed_graphs(
                    old(self)@.named_graphs(),
                    change_views(changes@.take(i as int)),
                ),
                self@.table() == table_changed(old(self)@, change_views(changes@.take(i as int))),
                i == 0 ==> self@.same_as(&old(self)@),
            decreases changes@.len() - i,
        {
            match &changes[i] {
                Change::Remove(quad) => {
                    let _ = self.transaction.remove(quad);
                },
                Change::Insert(quad) => {
                    let _ = self.transaction.insert(quad);
                },
            }
            proof {
                let done = change_views(changes@.take(i as int));
                let next = change_views(changes@.take(i as int + 1));
                assert(next.drop_last() =~= done);
                assert(next.last() == changes@[i as int]@);
            }
            i += 1;
        }
        proof {
            assert(changes@.take(changes@.len() as int) =~= changes@);
        }
    }
}

/// What was fetched for the source of a `LOAD`: its triples, or why there
/// are none.
#[derive(Debug)]
pub struct LoadedSource {
    pub source: NamedNode,
    pub outcome: Result<Vec<Triple>, String>,
}

/// The first of the fetched sources with an IRI, if there is one.
pub open spec fn loaded_for(loaded: Seq<LoadedSource>, source: Seq<char>) -> Option<LoadedSource>
    decreases loaded.len(),
{
    if loaded.len() == 0 {
        None
    } else if loaded[0].source@ == source {
        Some(loaded[0])
    } else {
        loaded_for(loaded.drop_first(), source)
    }
}

/// The message with which a `LOAD` fails: why nothing was fetched for its
/// source, or that nothing was.
pub open spec fn load_failure_text(loaded: Seq<LoadedSource>, source: Seq<char>) -> Seq<char> {
    match loaded_for(loaded, source) {
        Some(LoadedSource { outcome: Err(msg), .. }) => msg@,
        _ => "Nothing was fetched for the source"@,
    }
}

fn find_loaded<'a>(loaded: &'a Vec<LoadedSource>, source: &NamedNode) -> (r: Option<
    &'a LoadedSource,
>)
    ensures
        r is Some <==> loaded_for(loaded@, source@) is Some,
        r matches Some(found) ==> Some(*found) == loaded_for(loaded@, source@),
{
    let mut i: usize = 0;
    proof {
        assert(loaded@.skip(0) =~= loaded@);
    }
    while i < loaded.len()
        invariant
            i <= loaded@.len(),
            loaded_for(loaded@, source@) == loaded_for(loaded@.skip(i as int), source@),
        decreases loaded@.len() - i,
    {
        proof {
            assert(loaded@.skip(i as int).drop_first() =~= loaded@.skip(i as int + 1));
            assert(loaded@.skip(i as int)[0] == loaded@[i as int]);
        }
        if loaded[i].source.same(source) {
            return Some(&loaded[i]);
        }
        i += 1;
    }
    None
}

/// The changes of all the solutions of a pattern, in the order of the
/// solutions: for each, the instances of the templates to delete, made
/// without blank nodes, then those of the templates to insert, made with the
/// fresh blank nodes of the solution.
pub open spec fn planned_changes(
    delete: Seq<QuadPattern>,
    insert: Seq<QuadPattern>,
    table: Seq<PlanVariableView>,
    rows: Seq<Bindings>,
    maps: Seq<Map<BlankNodeView, BlankNodeView>>,
    strings: Map<u128, Seq<char>>,
) -> Result<Seq<ChangeView>, DecodeFailure>
    decreases rows.len(),
{
    if rows.len() == 0 || maps.len() != rows.len() {
        Ok(Seq::empty())
    } else {
        match planned_changes(delete, insert, table, rows.drop_last(), maps.drop_last(), strings) {
            Err(failure) => Err(failure),
            Ok(before) => match template_changes(
                delete,
                false,
                table,
                rows.last(),
                strings,
                Map::empty(),
            ) {
                Err(failure) => Err(failure),
                Ok(deletes) => match template_changes(
                    insert,
                    true,
                    table,
                    rows.last(),
                    strings,
                    maps.last(),
                ) {
                    Err(failure) => Err(failure),
                    Ok(inserts) => Ok(before + deletes + inserts),
                },
            },
        }
    }
}

/// The plan of the pattern of a `DELETE`/`INSERT` and the solutions that it
/// gives over the quads of a store.
pub open spec fn pattern_solutions_of(
    pattern: GraphPattern,
    table: Seq<PlanVariableView>,
    quads: Set<EncodedQuad>,
) -> Set<Bindings> {
    match plan_of(pattern, table, PatternValue::Constant(EncodedTerm::DefaultGraph)) {
        Some(plan) => solutions(plan, quads, Map::empty()),
        None => Set::empty(),
    }
}

/// The solutions of a pattern over a state of the store, each as often as
/// the plan of the pattern gives it, in the order in which it gives them.
pub open spec fn pattern_rows_of(
    pattern: GraphPattern,
    table: Seq<PlanVariableView>,
    state: StorageReader,
) -> Seq<Bindings> {
    match plan_of(pattern, table, PatternValue::Constant(EncodedTerm::DefaultGraph)) {
        Some(plan) => rows_of(plan, state, Map::empty()),
        None => Seq::empty(),
    }
}

/// What makes a `DELETE`/`INSERT` fail though its pattern is taken: for a
/// solution of the pattern, a template has no instance, because a variable
/// stands in it where the term that it is bound to cannot stand.
pub open spec fn template_failure(
    delete: Seq<QuadPattern>,
    insert: Seq<QuadPattern>,
    pattern: GraphPattern,
    quads: Set<EncodedQuad>,
    strings: Map<u128, Seq<char>>,
) -> bool {
    exists|
        table: Seq<PlanVariableView>,
        row: Bindings,
        bnodes: Map<BlankNodeView, BlankNodeView>,
    |
        #![trigger template_changes(insert, true, table, row, strings, bnodes)]
        pattern_solutions_of(pattern, table, quads).contains(row) && (template_changes(
            delete,
            false,
            table,
            row,
            strings,
            Map::empty(),
        ) is Err || template_changes(insert, true, table, row, strings, bnodes) is Err)
}

/// Whether each of some maps gives a blank node of a number to each blank
/// node of some templates, and to no other.
pub open spec fn are_fresh_namings(
    maps: Seq<Map<BlankNodeView, BlankNodeView>>,
    templates: Seq<QuadPattern>,
) -> bool {
    forall|k: int|
        0 <= k < maps.len() ==> (#[trigger] maps[k]).dom() == templates_blank_nodes(templates)
            && grown_from(maps[k], Map::empty())
}

/// Whether an error is the one with which a `DELETE`/`INSERT` fails though
/// its pattern is taken: in the order of the solutions of the pattern, the
/// changes of the first solutions can be made, with fresh blank nodes for
/// each, those of the next cannot, and the error tells why.
pub open spec fn is_template_error(
    delete: Seq<QuadPattern>,
    insert: Seq<QuadPattern>,
    pattern: GraphPattern,
    before: StorageReader,
    error: EvaluationError,
) -> bool {
    exists|table: Seq<PlanVariableView>, maps: Seq<Map<BlankNodeView, BlankNodeView>>|
        #![trigger planned_changes(delete, insert, table, pattern_rows_of(pattern, table, before).take(maps.len() as int), maps, before.strings())]
        table == pattern_slots(pattern) && 1 <= maps.len() <= pattern_rows_of(
            pattern,
            table,
            before,
        ).len() && are_fresh_namings(
            maps.drop_last(),
            insert,
        ) && planned_changes(
            delete,
            insert,
            table,
            pattern_rows_of(pattern, table, before).take(maps.len() - 1),
            maps.drop_last(),
            before.strings(),
        ) is Ok && (planned_changes(
            delete,
            insert,
            table,
            pattern_rows_of(pattern, table, before).take(maps.len() as int),
            maps,
            before.strings(),
        ) matches Err(failure) && tells_of(error, failure))
}

/// Whether an error tells of a failure to decode.
pub open spec fn tells_of(error: EvaluationError, failure: DecodeFailure) -> bool {
    error matches EvaluationError::Decoding { msg } && msg@ == failure_text(failure)
}

proof fn lemma_template_error(
    delete: Seq<QuadPattern>,
    insert: Seq<QuadPattern>,
    pattern: GraphPattern,
    before: StorageReader,
    table: Seq<PlanVariableView>,
    maps: Seq<Map<BlankNodeView, BlankNodeView>>,
    last: Map<BlankNodeView, BlankNodeView>,
    error: EvaluationError,
)
    requires
        table == pattern_slots(pattern),
        maps.len() < pattern_rows_of(pattern, table, before).len(),
        are_fresh_namings(maps, insert),
        planned_changes(
            delete,
            insert,
            table,
            pattern_rows_of(pattern, table, before).take(maps.len() as int),
            maps,
            before.strings(),
        ) is Ok,
        match template_changes(
            delete,
            false,
            table,
            pattern_rows_of(pattern, table, before)[maps.len() as int],
            before.strings(),
            Map::empty(),
        ) {
            Err(failure) => tells_of(error, failure),
            Ok(_) => template_changes(
                insert,
                true,
                table,
                pattern_rows_of(pattern, table, before)[maps.len() as int],
                before.strings(),
                last,
            ) matches Err(failure) && tells_of(error, failure),
        },
    ensures
        is_template_error(delete, insert, pattern, before, error),
{
    let rows = pattern_rows_of(pattern, table, before);
    let tried = maps.push(last);
    let next = rows.take(tried.len() as int);
    assert(next.drop_last() =~= rows.take(maps.len() as int));
    assert(next.last() == rows[maps.len() as int]);
    assert(tried.drop_last() =~= maps);
    assert(tried.last() == last);
    assert(rows.take(tried.len() - 1) == rows.take(maps.len() as int));
    assert(planned_changes(delete, insert, table, next, tried, before.strings()) is Err);
}

/// What a `DELETE`/`INSERT` has done to a store, where it went through: for
/// some table of slots, some order of the solutions of the pattern and some
/// fresh blank nodes for each, the changes of all the solutions, one after
/// the other.
pub open spec fn delete_insert_effect(
    delete: Seq<QuadPattern>,
    insert: Seq<QuadPattern>,
    pattern: GraphPattern,
    before: StorageReader,
    after: StorageReader,
) -> bool {
    exists|
        table: Seq<PlanVariableView>,
        rows: Seq<Bindings>,
        maps: Seq<Map<BlankNodeView, BlankNodeView>>,
        changes: Seq<ChangeView>,
    |
        #![trigger planned_changes(delete, insert, table, rows, maps, before.strings()), changed_quads(before.quads(), changes)]
        table == pattern_slots(pattern) && rows == pattern_rows_of(pattern, table, before)
            && rows.to_set()
            == pattern_solutions_of(pattern, table, before.quads()) && maps.len() == rows.len()
            && are_fresh_namings(maps, insert) && planned_changes(
            delete,
            insert,
            table,
            rows,
            maps,
            before.strings(),
        ) == Ok::<Seq<ChangeView>, DecodeFailure>(changes) && after.quads() == changed_quads(
            before.quads(),
            changes,
        ) && after.named_graphs() == changed_graphs(before.named_graphs(), changes)
            && after.table() == table_changed(before, changes)
}

impl SimpleUpdateEvaluator {
    /// `DELETE`/`INSERT`: evaluates the pattern over the store as it is,
    /// makes for each solution the instances of the templates, and then
    /// makes all the changes. Nothing changes where the pattern is refused,
    /// or where for a solution a template has no instance because a
    /// variable stands where the term that it is bound to cannot stand.
    pub fn eval_delete_insert(
        &mut self,
        delete: &Vec<QuadPattern>,
        insert: &Vec<QuadPattern>,
        pattern: &GraphPattern,
    ) -> (r: Result<(), EvaluationError>)
        requires
            old(self)@.wf(),
        ensures
            final(self)@.wf(),
            final(self).base_version() == old(self).base_version(),
            !is_supported(*pattern) ==> r is Err,
            r is Err ==> final(self)@ == old(self)@,
            r matches Err(error) ==> if is_supported(*pattern) {
                error is Decoding
            } else {
                is_refusal(error)
            },
            r is Err && is_supported(*pattern) ==> template_failure(
                delete@,
                insert@,
                *pattern,
                old(self)@.quads(),
                old(self)@.strings(),
            ),
            r matches Err(error) ==> is_supported(*pattern) ==> is_template_error(
                delete@,
                insert@,
                *pattern,
                old(self)@,
                error,
            ),
            r is Ok ==> delete_insert_effect(
                delete@,
                insert@,
                *pattern,
                old(self)@,
                final(self)@,
            ),
            r is Ok && (forall|table: Seq<PlanVariableView>|
                #[trigger] pattern_solutions_of(*pattern, table, old(self)@.quads())
                    == Set::<Bindings>::empty()) ==> final(self)@.same_as(&old(self)@),
    {
        let (plan, variables) = match build(pattern) {
            Ok(built) => built,
            Err(error) => { return Err(error); },
        };
        let ghost table = slot_views(variables@);
        let ghost strings = self@.strings();
        let from = EncodedTuple::with_capacity(variables.len());
        let rows = eval_plan(&plan, self.transaction.reader(), &from);
        let ghost views = tuple_views(rows@);
        let mut changes: Vec<Change> = Vec::new();
        let ghost mut maps: Seq<Map<BlankNodeView, BlankNodeView>> = Seq::empty();
        let mut i: usize = 0;
        proof {
            assert(views.take(0) =~= Seq::<Bindings>::empty());
            assert(change_views(changes@) =~= Seq::<ChangeView>::empty());
        }
        while i < rows.len()
            invariant
                i <= rows@.len(),
                self@ == old(self)@,
                self@.wf(),
                self.base_version() == old(self).base_version(),
                table == slot_views(variables@),
                table == pattern_slots(*pattern),
                strings == self@.strings(),
                views == tuple_views(rows@),
                is_supported(*pattern),
                views == pattern_rows_of(*pattern, table, old(self)@),
                views.to_set() == pattern_solutions_of(*pattern, table, old(self)@.quads()),
                maps.len() == i,
                are_fresh_namings(maps, insert@),
                planned_changes(delete@, insert@, table, views.take(i as int), maps, strings)
                    == Ok::<Seq<ChangeView>, DecodeFailure>(change_views(changes@)),
            decreases rows@.len() - i,
        {
            let ghost before = change_views(changes@);
            let without = BlankNodeMap::new();
            let mut deletes = match make_template_changes(
                delete,
                false,
                &variables,
                &rows[i],
                self.transaction.reader(),
                &without,
            ) {
                Ok(made) => made,
                Err(error) => {
                    proof {
                        let row = views[i as int];
                        assert(row == rows@[i as int]@);
                        assert(views.to_set().contains(row));
                        let none = Map::<BlankNodeView, BlankNodeView>::empty();
                        assert(template_changes(delete@, false, table, row, strings, none) is Err
                            || template_changes(insert@, true, table, row, strings, none) is Err);
                        lemma_template_error(
                            delete@,
                            insert@,
                            *pattern,
                            old(self)@,
                            table,
                            maps,
                            none,
                            error,
                        );
                    }
                    return Err(error);
                },
            };
            let mut bnodes = BlankNodeMap::new();
            allocate_in_templates(insert, &mut bnodes);
            let mut inserts = match make_template_changes(
                insert,
                true,
                &variables,
                &rows[i],
                self.transaction.reader(),
                &bnodes,
            ) {
                Ok(made) => made,
                Err(error) => {
                    proof {
                        let row = views[i as int];
                        assert(row == rows@[i as int]@);
                        assert(views.to_set().contains(row));
                        assert(template_changes(insert@, true, table, row, strings, bnodes@)
                            is Err);
                        lemma_template_error(
                            delete@,
                            insert@,
                            *pattern,
                            old(self)@,
                            table,
                            maps,
                            bnodes@,
                            error,
                        );
                    }
                    return Err(error);
                },
            };
            let ghost first = change_views(deletes@);
            let ghost second = change_views(inserts@);
            changes.append(&mut deletes);
            changes.append(&mut inserts);
            proof {
                let old_maps = maps;
                maps = maps.push(bnodes@);
                let next = views.take(i as int + 1);
                assert(next.drop_last() =~= views.take(i as int));
                assert(next.last() == rows@[i as int]@);
                assert(maps.drop_last() =~= old_maps);
                assert(maps.last() == bnodes@);
                assert(bnodes@.dom() =~= templates_blank_nodes(insert@));
                assert forall|k: int| 0 <= k < maps.len() implies (#[trigger] maps[k]).dom()
                    == templates_blank_nodes(insert@) && grown_from(maps[k], Map::empty()) by {
                    if k < old_maps.len() {
                        assert(maps[k] == old_maps[k]);
                    }
                }
                assert(change_views(changes@) =~= before + first + second);
            }
            i += 1;
        }
        proof {
            assert(views.take(views.len() as int) =~= views);
        }
        self.apply_changes(&changes);
        proof {
            assert(views.to_set() == pattern_solutions_of(
                *pattern,
                table,
                old(self)@.quads(),
            ));
            assert(planned_changes(delete@, insert@, table, views, maps, old(self)@.strings())
                == Ok::<Seq<ChangeView>, DecodeFailure>(change_views(changes@)));
            assert(self@.quads() == changed_quads(old(self)@.quads(), change_views(changes@)));
            if forall|table: Seq<PlanVariableView>|
                #[trigger] pattern_solutions_of(*pattern, table, old(self)@.quads())
                    == Set::<Bindings>::empty() {
                assert(pattern_solutions_of(*pattern, table, old(self)@.quads())
                    == Set::<Bindings>::empty());
                if views.len() > 0 {
                    assert(views.contains(views[0]));
                    assert(views.to_set().contains(views[0]));
                }
                assert(changes@.len() == 0);
            }
        }
        Ok(())
    }

    /// `LOAD`: adds the triples that were fetched for a source to a graph.
    /// It is an error that nothing was fetched for the source, unless the
    /// operation is silent.
    pub fn eval_load_operation(
        &mut self,
        silent: bool,
        source: &NamedNode,
        destination: &GraphName,
        loaded: &Vec<LoadedSource>,
    ) -> (r: Result<(), EvaluationError>)
        requires
            old(self)@.wf(),
        ensures
            final(self)@.wf(),
            final(self).base_version() == old(self).base_version(),
            r is Ok <==> silent || (loaded_for(loaded@, source@) matches Some(found)
                && found.outcome is Ok),
            r matches Err(error) ==> (error matches EvaluationError::Load { msg } && msg@
                == load_failure_text(loaded@, source@)),
            final(self)@.quads() == match loaded_for(loaded@, source@) {
                Some(LoadedSource { outcome: Ok(triples), .. }) => old(self)@.quads().union(
                    loaded_quads(triples@, destination@),
                ),
                _ => old(self)@.quads(),
            },
            final(self)@.named_graphs() == match loaded_for(loaded@, source@) {
                Some(LoadedSource { outcome: Ok(triples), .. }) => graphs_loaded(
                    old(self)@.named_graphs(),
                    triples@.len(),
                    destination@,
                ),
                _ => old(self)@.named_graphs(),
            },
            final(self)@.table() == match loaded_for(loaded@, source@) {
                Some(LoadedSource { outcome: Ok(triples), .. }) => table_changed(
                    old(self)@,
                    insertions(loaded_data(triples@, destination@)),
                ),
                _ => old(self)@.table(),
            },
    {
        let fetched = match find_loaded(loaded, source) {
            Some(found) => match &found.outcome {
                Ok(triples) => Ok(triples),
                Err(msg) => Err(EvaluationError::Load { msg: copy_str(msg.as_str()) }),
            },
            None => Err(
                EvaluationError::Load { msg: copy_str("Nothing was fetched for the source") },
            ),
        };
        match fetched {
            Ok(triples) => self.eval_load(triples, destination),
            Err(error) => if silent {
                Ok(())
            } else {
                Err(error)
            },
        }
    }

    /// Evaluates one operation of an update.
    pub fn eval(&mut self, update: &GraphUpdateOperation, loaded: &Vec<LoadedSource>) -> (r:
        Result<(), EvaluationError>)
        requires
            old(self)@.wf(),
        ensures
            final(self)@.wf(),
            final(self).base_version() == old(self).base_version(),
            operation_effect(*update, loaded@, old(self)@, final(self)@, r is Ok),
            r matches Err(error) ==> error_of_operation(*update, loaded@, old(self)@, error),
    {
        match update {
            GraphUpdateOperation::InsertData { data } => self.eval_insert_data(data),
            GraphUpdateOperation::DeleteData { data } => self.eval_delete_data(data),
            GraphUpdateOperation::DeleteInsert { delete, insert, pattern } => {
                self.eval_delete_insert(delete, insert, pattern)
            },
            GraphUpdateOperation::Load { silent, source, destination } => {
                self.eval_load_operation(*silent, source, destination, loaded)
            },
            GraphUpdateOperation::Clear { graph, silent } => self.eval_clear(graph, *silent),
            GraphUpdateOperation::Create { graph, silent } => self.eval_create(graph, *silent),
            GraphUpdateOperation::Drop { graph, silent } => self.eval_drop(graph, *silent),
        }
    }

    /// Evaluates the operations of an update, one after the other, up to
    /// the first that fails.
    pub fn eval_all(&mut self, updates: &Vec<GraphUpdateOperation>, loaded: &Vec<LoadedSource>) -> (r:
        Result<(), EvaluationError>)
        requires
            old(self)@.wf(),
        ensures
            final(self)@.wf(),
            final(self).base_version() == old(self).base_version(),
            r is Ok ==> operations_effect(updates@, loaded@, old(self)@, final(self)@),
            r matches Err(error) ==> operations_failure(updates@, loaded@, old(self)@, error),
    {
        let mut i: usize = 0;
        let ghost mut states: Seq<StorageReader> = seq![self@];
        while i < updates.len()
            invariant
                i <= updates@.len(),
                self@.wf(),
                self.base_version() == old(self).base_version(),
                states.len() == i + 1,
                states[0] == old(self)@,
                states[i as int] == self@,
                forall|k: int|
                    0 <= k < i ==> operation_effect(
                        updates@[k],
                        loaded@,
                        #[trigger] states[k],
                        states[k + 1],
                        true,
                    ),
            decreases updates@.len() - i,
        {
            let ghost before = states;
            match self.eval(&updates[i], loaded) {
                Ok(_) => {},
                Err(error) => {
                    proof {
                        let last = self@;
                        assert(states.len() == i + 1 && last.wf());
                        assert(error_of_operation(
                            updates@[states.len() - 1],
                            loaded@,
                            states[states.len() - 1],
                            error,
                        ));
                        assert(operation_effect(
                            updates@[states.len() - 1],
                            loaded@,
                            states[states.len() - 1],
                            last,
                            false,
                        ));
                    }
                    return Err(error);
                },
            }
            proof {
                states = states.push(self@);
                assert forall|k: int| 0 <= k < i + 1 implies operation_effect(
                    updates@[k],
                    loaded@,
                    #[trigger] states[k],
                    states[k + 1],
                    true,
                ) by {
                    if k < i {
                        assert(states[k] == before[k]);
                        assert(states[k + 1] == before[k + 1]);
                    }
                }
            }
            i += 1;
        }
        Ok(())
    }
}

/// Whether a state has no key in any index, and no text in its string table
/// but one whose count has reached the limit.
pub open spec fn no_key_is_left(state: StorageReader) -> bool {
    &&& forall|index: crate::storage::index::QuadIndex|
        (#[trigger] state.index_quads(index)).len() == 0
    &&& forall|hash: u128| #[trigger]
        state.table().contains_key(hash) ==> state.table()[hash].count >= MAX_COUNT
}

/// Whether an error is the one with which an operation fails: that the
/// graph to create is known, that the graph to clear or to drop is not, that
/// nothing could be loaded, or that a pattern or a template is refused.
pub open spec fn error_of_operation(
    update: GraphUpdateOperation,
    loaded: Seq<LoadedSource>,
    before: StorageReader,
    error: EvaluationError,
) -> bool {
    match update {
        GraphUpdateOperation::InsertData { .. } => false,
        GraphUpdateOperation::DeleteData { .. } => false,
        GraphUpdateOperation::DeleteInsert { delete, insert, pattern } => if is_supported(
            pattern,
        ) {
            is_template_error(delete@, insert@, pattern, before, error)
        } else {
            is_refusal(error)
        },
        GraphUpdateOperation::Load { source, .. } => error matches EvaluationError::Load { msg }
            && msg@ == load_failure_text(loaded, source@),
        GraphUpdateOperation::Clear { graph, .. } => error matches EvaluationError::GraphDoesNotExist {
            graph: name,
        } && (graph matches GraphTarget::NamedNode(node) && name@ == node@),
        GraphUpdateOperation::Create { graph, .. } => error matches EvaluationError::GraphAlreadyExists {
            graph: name,
        } && name@ == graph@,
        GraphUpdateOperation::Drop { graph, .. } => error matches EvaluationError::GraphDoesNotExist {
            graph: name,
        } && (graph matches GraphTarget::NamedNode(node) && name@ == node@),
    }
}

/// What an operation has done to a store, by whether it went through.
pub open spec fn operation_effect(
    update: GraphUpdateOperation,
    loaded: Seq<LoadedSource>,
    before: StorageReader,
    after: StorageReader,
    done: bool,
) -> bool {
    match update {
        GraphUpdateOperation::InsertData { data } => done && exists|
            bnodes: Map<BlankNodeView, BlankNodeView>,
        |
            (forall|i: int| 0 <= i < data@.len() ==> quad_is_mapped(
                (#[trigger] data@[i])@,
                bnodes,
            )) && after.quads() == before.quads().union(encoded_renamed_quads(data@, bnodes))
            && after.table() == table_changed(before, insertions(renamed_data(data@, bnodes)))
            && bnodes.dom() == data_blank_nodes(data@) && grown_from(bnodes, Map::empty())
            && after.named_graphs() == graphs_with(before.named_graphs(), data@),
        GraphUpdateOperation::DeleteData { data } => done && after.quads()
            == before.quads().difference(encoded_quads(data@)) && after.graph_names()
            == before.graph_names() && after.table() == table_changed(
            before,
            removals(quad_views(data@)),
        ),
        GraphUpdateOperation::DeleteInsert { delete, insert, pattern } => (!is_supported(pattern)
            ==> !done) && (!done ==> after == before) && (!done && is_supported(pattern)
            ==> template_failure(delete@, insert@, pattern, before.quads(), before.strings()))
            && (done ==> delete_insert_effect(
            delete@,
            insert@,
            pattern,
            before,
            after,
        )),
        GraphUpdateOperation::Load { silent, source, destination } => (done <==> silent || (
        loaded_for(loaded, source@) matches Some(found) && found.outcome is Ok)) && after.quads()
            == match loaded_for(loaded, source@) {
            Some(LoadedSource { outcome: Ok(triples), .. }) => before.quads().union(
                loaded_quads(triples@, destination@),
            ),
            _ => before.quads(),
        } && after.named_graphs() == match loaded_for(loaded, source@) {
            Some(LoadedSource { outcome: Ok(triples), .. }) => graphs_loaded(
                before.named_graphs(),
                triples@.len(),
                destination@,
            ),
            _ => before.named_graphs(),
        } && after.table() == match loaded_for(loaded, source@) {
            Some(LoadedSource { outcome: Ok(triples), .. }) => table_changed(
                before,
                insertions(loaded_data(triples@, destination@)),
            ),
            _ => before.table(),
        },
        GraphUpdateOperation::Clear { silent, graph } => (done <==> silent || target_is_there(
            before.named_graphs(),
            graph,
        )) && after.quads() == (if target_is_there(before.named_graphs(), graph) {
            cleared_quads(before.quads(), graph)
        } else {
            before.quads()
        }) && after.graph_names() == before.graph_names() && texts_kept(
            after.table(),
            before.table(),
        ),
        GraphUpdateOperation::Create { silent, graph } => (done <==> silent
            || !before.named_graphs().contains(encoded_named_node(graph@))) && after.quads()
            == before.quads() && after.named_graphs() == before.named_graphs().insert(
            encoded_named_node(graph@),
        ) && after.table() == created_table(before.named_graphs(), before.table(), graph@),
        GraphUpdateOperation::Drop { silent, graph } => (done <==> silent || target_is_there(
            before.named_graphs(),
            graph,
        )) && after.quads() == cleared_quads(before.quads(), graph) && after.named_graphs()
            == dropped_graphs(before.named_graphs(), graph) && texts_kept(
            after.table(),
            before.table(),
        ) && (graph is AllGraphs ==> no_key_is_left(after)),
    }
}

/// What some operations have done to a store, where all went through: the
/// store passed through a state after each.
pub open spec fn operations_effect(
    updates: Seq<GraphUpdateOperation>,
    loaded: Seq<LoadedSource>,
    before: StorageReader,
    after: StorageReader,
) -> bool {
    exists|states: Seq<StorageReader>|
        #![trigger states.len()]
        states.len() == updates.len() + 1 && states[0] == before && states[updates.len() as int]
            == after && forall|k: int|
            0 <= k < updates.len() ==> operation_effect(
                updates[k],
                loaded,
                #[trigger] states[k],
                states[k + 1],
                true,
            )
}

/// What makes some operations fail with an error: the store passed through
/// a state after each of the first ones, and the next one did not go
/// through, with that error.
pub open spec fn operations_failure(
    updates: Seq<GraphUpdateOperation>,
    loaded: Seq<LoadedSource>,
    before: StorageReader,
    error: EvaluationError,
) -> bool {
    exists|states: Seq<StorageReader>, last: StorageReader|
        #![trigger states.len(), last.wf()]
        1 <= states.len() <= updates.len() && states[0] == before && (forall|k: int|
            0 <= k < states.len() - 1 ==> operation_effect(
                updates[k],
                loaded,
                #[trigger] states[k],
                states[k + 1],
                true,
            )) && operation_effect(
            updates[states.len() - 1],
            loaded,
            states[states.len() - 1],
            last,
            false,
        ) && error_of_operation(
            updates[states.len() - 1],
            loaded,
            states[states.len() - 1],
            error,
        )
}

/// Adding data and then dropping, not silently, a named graph that is not
/// known once the data is added does not go through: no state is what the
/// two operations lead to.
pub proof fn lemma_insert_data_then_drop_of_unknown_graph_fails(
    data: Vec<Quad>,
    graph: NamedNode,
    loaded: Seq<LoadedSource>,
    before: StorageReader,
    after: StorageReader,
)
    requires
        !graphs_with(before.named_graphs(), data@).contains(encoded_named_node(graph@)),
    ensures
        !operations_effect(
            seq![
                GraphUpdateOperation::InsertData { data },
                GraphUpdateOperation::Drop { silent: false, graph: GraphTarget::NamedNode(graph) },
            ],
            loaded,
            before,
            after,
        ),
{
    let updates = seq![
        GraphUpdateOperation::InsertData { data },
        GraphUpdateOperation::Drop { silent: false, graph: GraphTarget::NamedNode(graph) },
    ];
    if operations_effect(updates, loaded, before, after) {
        let states = choose|states: Seq<StorageReader>|
            #![trigger states.len()]
            states.len() == updates.len() + 1 && states[0] == before && states[updates.len() as int]
                == after && forall|k: int|
                0 <= k < updates.len() ==> operation_effect(
                    updates[k],
                    loaded,
                    #[trigger] states[k],
                    states[k + 1],
                    true,
                );
        assert(operation_effect(updates[0], loaded, states[0], states[1], true));
        assert(operation_effect(updates[1], loaded, states[1], states[2], true));
        assert(states[1].named_graphs() == graphs_with(before.named_graphs(), data@));
        assert(!target_is_there(states[1].named_graphs(), GraphTarget::NamedNode(graph)));
    }
}

/// Evaluates an update on a store, in one transaction: either every
/// operation goes through and all that was written becomes the state of the
/// store at once, or the store stays as it is. The sources of the `LOAD`
/// operations are to be fetched beforehand. The options are those of the
/// evaluation of the patterns, which calls no service and no function of the
/// host.
pub fn evaluate_update(
    storage: &mut Storage,
    update: &Update,
    options: &UpdateOptions,
    loaded: &Vec<LoadedSource>,
) -> (r: Result<(), EvaluationError>)
    requires
        old(storage)@.wf(),
    ensures
        final(storage)@.wf(),
        r is Err ==> final(storage)@ == old(storage)@ && final(storage).version() == old(
            storage,
        ).version(),
        r matches Err(error) ==> (old(storage).version() == u64::MAX && error is Conflict)
            || exists|start: StorageReader|
            #![trigger start.same_as(&old(storage)@)]
            start.same_as(&old(storage)@) && operations_failure(
                update.operations@,
                loaded@,
                start,
                error,
            ),
        r is Ok ==> final(storage).version() == old(storage).version() + 1 && exists|
            start: StorageReader,
        |
            #![trigger start.same_as(&old(storage)@)]
            start.same_as(&old(storage)@) && operations_effect(
                update.operations@,
                loaded@,
                start,
                final(storage)@,
            ),
{
    let transaction = storage.transaction();
    let ghost start = transaction@;
    let mut evaluator = SimpleUpdateEvaluator::new(transaction);
    match evaluator.eval_all(&update.operations, loaded) {
        Ok(_) => {},
        Err(error) => {
            storage.rollback(evaluator.into_transaction());
            proof {
                assert(start.same_as(&old(storage)@));
            }
            return Err(error);
        },
    }
    match storage.commit(evaluator.into_transaction()) {
        Ok(_) => {
            proof {
                assert(start.same_as(&old(storage)@));
            }
            Ok(())
        },
        Err(_) => Err(EvaluationError::Conflict),
    }
}

} // verus!

//! The evaluation of a query over a snapshot of the store.

use crate::model::triple::{Term, TermView};
use crate::sparql::algebra::{GraphPattern, Variable};
use crate::sparql::error::EvaluationError;
use crate::sparql::eval::eval_plan;
use crate::sparql::options::QueryOptions;
use crate::sparql::plan::{
    binds_within, lemma_solutions_bind_stored, quad_terms, solutions, tuple_views, Bindings,
    EncodedTuple,
};
use crate::sparql::plan_builder::{
    build, find_slot, has_slots, is_refusal, is_supported, pattern_slots, position, slot_views,
    PlanVariable, PlanVariableView,
};
use crate::sparql::update::{pattern_rows_of, pattern_solutions_of};
use crate::storage::numeric_encoder::{
    decode_term, decoded_term, failure_text, DecodeFailure, DecoderError, StrLookup,
};
use crate::storage::numeric_encoder::{EncodedQuad, EncodedTerm};
use crate::storage::store::{lemma_stored_quads_decode, StorageReader};
use vstd::prelude::*;

verus! {

/// A query.
#[derive(Debug)]
pub enum Query {
    /// `SELECT *`: the solutions of a pattern.
    Select { pattern: GraphPattern },
    /// `ASK`: whether a pattern has a solution.
    Ask { pattern: GraphPattern },
}

/// One solution: for each slot, the term that is bound to it, or none.
#[derive(Debug)]
pub struct QuerySolution {
    pub values: Vec<Option<Term>>,
}

/// The results of a query.
#[derive(Debug)]
pub enum QueryResults {
    Solutions { variables: Vec<PlanVariable>, solutions: Vec<QuerySolution> },
    Boolean(bool),
}

/// What the terms of a solution are, slot by slot.
pub open spec fn solution_view(values: Seq<Option<Term>>) -> Seq<Option<TermView>> {
    Seq::new(
        values.len(),
        |i: int|
            match values[i] {
                Some(term) => Some(term@),
                None => None,
            },
    )
}

/// The terms that a tuple binds to the first slots, decoded: the first
/// failure, if a decoding fails.
pub open spec fn decoded_row(values: Bindings, slots: nat, strings: Map<u128, Seq<char>>) -> Result<
    Seq<Option<TermView>>,
    DecodeFailure,
>
    decreases slots,
{
    if slots == 0 {
        Ok(Seq::empty())
    } else {
        match decoded_row(values, (slots - 1) as nat, strings) {
            Err(failure) => Err(failure),
            Ok(front) => if values.contains_key(slots - 1) {
                match decoded_term(values[slots - 1], strings) {
                    Ok(term) => Ok(front.push(Some(term))),
                    Err(failure) => Err(failure),
                }
            } else {
                Ok(front.push(None))
            },
        }
    }
}

impl QuerySolution {
    /// The term that a variable is bound to in the solution.
    pub fn get<'a>(&'a self, variables: &Vec<PlanVariable>, name: &Variable) -> (r: Option<
        &'a Term,
    >)
        ensures
            r matches Some(term) ==> (position(
                slot_views(variables@),
                PlanVariableView::Variable(name@),
            ) matches Some(at) && at < self.values@.len() && self.values@[at] == Some(*term)),
            r is None ==> (position(
                slot_views(variables@),
                PlanVariableView::Variable(name@),
            ) matches Some(at) ==> at >= self.values@.len() || self.values@[at] is None),
    {
        let key = PlanVariable::Variable(name.duplicate());
        match find_slot(variables, &key) {
            Some(at) => if at < self.values.len() {
                self.values[at].as_ref()
            } else {
                None
            },
            None => None,
        }
    }
}

fn decode_row(row: &EncodedTuple, slots: usize, reader: &StorageReader) -> (r: Result<
    QuerySolution,
    EvaluationError,
>)
    requires
        reader.strings_wf(),
    ensures
        match r {
            Ok(solution) => decoded_row(row@, slots as nat, reader.strings()) == Ok::<
                Seq<Option<TermView>>,
                DecodeFailure,
            >(solution_view(solution.values@)),
            Err(error) => decoded_row(row@, slots as nat, reader.strings()) is Err && (
            error matches EvaluationError::Decoding { msg } && msg@ == failure_text(
                decoded_row(row@, slots as nat, reader.strings())->Err_0,
            )),
        },
{
    let mut values: Vec<Option<Term>> = Vec::new();
    let mut i: usize = 0;
    let ghost strings = reader.strings();
    proof {
        assert(solution_view(values@) =~= Seq::<Option<TermView>>::empty());
    }
    while i < slots
        invariant
            i <= slots,
            reader.strings_wf(),
            strings == reader.strings(),
            decoded_row(row@, i as nat, strings) == Ok::<Seq<Option<TermView>>, DecodeFailure>(
                solution_view(values@),
            ),
        decreases slots - i,
    {
        let ghost before = solution_view(values@);
        match row.get(i) {
            Some(encoded) => match decode_term(reader, encoded) {
                Ok(term) => {
                    let ghost view = term@;
                    values.push(Some(term));
                    proof {
                        assert(solution_view(values@) =~= before.push(Some(view)));
                    }
                },
                Err(error) => {
                    proof {
                        lemma_decoded_row_fails(row@, slots as nat, strings, (i + 1) as nat);
                    }
                    return match error {
                        DecoderError::Decoder { msg } => Err(EvaluationError::Decoding { msg }),
                        DecoderError::Store(_) => Err(EvaluationError::Conflict),
                    };
                },
            },
            None => {
                values.push(None);
                proof {
                    assert(solution_view(values@) =~= before.push(None));
                }
            },
        }
        i += 1;
    }
    Ok(QuerySolution { values })
}

proof fn lemma_decoded_row_fails(
    values: Bindings,
    slots: nat,
    strings: Map<u128, Seq<char>>,
    n: nat,
)
    requires
        n <= slots,
        decoded_row(values, n, strings) is Err,
    ensures
        decoded_row(values, slots, strings) == decoded_row(values, n, strings),
    decreases slots - n,
{
    if n < slots {
        lemma_decoded_row_fails(values, (slots - 1) as nat, strings, n);
    }
}

/// A decoded row has a term, or none, for each of the slots.
pub proof fn lemma_decoded_row_len(values: Bindings, slots: nat, strings: Map<u128, Seq<char>>)
    ensures
        decoded_row(values, slots, strings) matches Ok(row) ==> row.len() == slots,
    decreases slots,
{
    if slots > 0 {
        lemma_decoded_row_len(values, (slots - 1) as nat, strings);
    }
}

/// In a state of the store in order, a tuple that binds terms of the quads
/// of the store only can be decoded, slot by slot.
pub proof fn lemma_row_decodes(state: StorageReader, row: Bindings, slots: nat)
    requires
        state.wf(),
        binds_within(row, quad_terms(state.quads())),
    ensures
        decoded_row(row, slots, state.strings()) is Ok,
    decreases slots,
{
    if slots > 0 {
        lemma_row_decodes(state, row, (slots - 1) as nat);
        if row.contains_key(slots - 1) {
            let term = row[slots - 1];
            assert(quad_terms(state.quads()).contains(term));
            let quad = choose|quad: EncodedQuad|
                #![trigger state.quads().contains(quad)]
                state.quads().contains(quad) && (quad.subject == term || quad.predicate == term
                    || quad.object == term || (quad.graph_name == term && term
                    != EncodedTerm::DefaultGraph));
            lemma_stored_quads_decode(state, quad);
        }
    }
}

/// Whether some solutions are the decoded rows of some tuples, one for
/// one.
pub open spec fn rows_decoded(
    rows: Seq<Bindings>,
    slots: nat,
    strings: Map<u128, Seq<char>>,
    solutions: Seq<QuerySolution>,
) -> bool {
    &&& rows.len() == solutions.len()
    &&& forall|k: int|
        0 <= k < rows.len() ==> decoded_row(#[trigger] rows[k], slots, strings) == Ok::<
            Seq<Option<TermView>>,
            DecodeFailure,
        >(solution_view(solutions[k].values@))
}

/// Evaluates a query over a state of the store. The pattern is planned and
/// evaluated, and each of its solutions is decoded, slot by slot. A pattern
/// with a quoted triple pattern is refused; every other query has its
/// results, for in a state in order every solution can be decoded. The
/// options are those of the evaluation of the patterns, which calls no
/// service and no function of the host.
pub fn evaluate_query(reader: &StorageReader, query: &Query, options: &QueryOptions) -> (r: Result<
    QueryResults,
    EvaluationError,
>)
    requires
        reader.wf(),
    ensures
        match *query {
            Query::Select { pattern } => match r {
                Ok(QueryResults::Solutions { variables, solutions }) => is_supported(pattern)
                    && slot_views(variables@) == pattern_slots(pattern) && has_slots(
                    pattern,
                    slot_views(variables@),
                ) && pattern_rows_of(
                    pattern,
                    slot_views(variables@),
                    *reader,
                ).to_set() == pattern_solutions_of(
                    pattern,
                    slot_views(variables@),
                    reader.quads(),
                ) && rows_decoded(
                    pattern_rows_of(pattern, slot_views(variables@), *reader),
                    variables@.len() as nat,
                    reader.strings(),
                    solutions@,
                ),
                Ok(QueryResults::Boolean(_)) => false,
                Err(error) => !is_supported(pattern) && is_refusal(error),
            },
            Query::Ask { pattern } => match r {
                Ok(QueryResults::Boolean(found)) => is_supported(pattern) && found == (
                pattern_rows_of(pattern, pattern_slots(pattern), *reader).len() > 0) && found == (
                pattern_solutions_of(pattern, pattern_slots(pattern), reader.quads())
                    != Set::<Bindings>::empty()),
                Ok(QueryResults::Solutions { .. }) => false,
                Err(error) => !is_supported(pattern) && is_refusal(error),
            },
        },
{
    match query {
        Query::Select { pattern } => {
            let (plan, variables) = match build(pattern) {
                Ok(built) => built,
                Err(error) => { return Err(error); },
            };
            let from = EncodedTuple::with_capacity(variables.len());
            let rows = eval_plan(&plan, reader, &from);
            let ghost views = tuple_views(rows@);
            let mut found: Vec<QuerySolution> = Vec::new();
            let mut i: usize = 0;
            while i < rows.len()
                invariant
                    i <= rows@.len(),
                    reader.wf(),
                    is_supported(*pattern),
                    *query matches Query::Select { pattern: asked } && asked == *pattern,
                    views == tuple_views(rows@),
                    views.to_set() == solutions(plan, reader.quads(), Map::empty()),
                    found@.len() == i,
                    forall|k: int|
                        0 <= k < i ==> decoded_row(
                            #[trigger] views[k],
                            variables@.len() as nat,
                            reader.strings(),
                        ) == Ok::<Seq<Option<TermView>>, DecodeFailure>(
                            solution_view(found@[k].values@),
                        ),
                decreases rows@.len() - i,
            {
                proof {
                    assert(views[i as int] == rows@[i as int]@);
                    assert(views.to_set().contains(views[i as int]));
                    lemma_solutions_bind_stored(
                        plan,
                        reader.quads(),
                        Map::empty(),
                        views[i as int],
                    );
                    lemma_row_decodes(*reader, views[i as int], variables@.len() as nat);
                }
                match decode_row(&rows[i], variables.len(), reader) {
                    Ok(solution) => {
                        found.push(solution);
                    },
                    Err(error) => { return Err(error); },
                }
                i += 1;
            }
            proof {
                assert(rows_decoded(
                    views,
                    variables@.len() as nat,
                    reader.strings(),
                    found@,
                ));
                assert(views.to_set() == pattern_solutions_of(
                    *pattern,
                    slot_views(variables@),
                    reader.quads(),
                ));
            }
            Ok(QueryResults::Solutions { variables, solutions: found })
        },
        Query::Ask { pattern } => {
            let (plan, variables) = match build(pattern) {
                Ok(built) => built,
                Err(error) => { return Err(error); },
            };
            let from = EncodedTuple::with_capacity(variables.len());
            let rows = eval_plan(&plan, reader, &from);
            proof {
                let views = tuple_views(rows@);
                if views.len() > 0 {
                    assert(views.contains(views[0]));
                    assert(views.to_set().contains(views[0]));
                } else {
                    assert(views.to_set() =~= Set::<Bindings>::empty());
                }
                assert(has_slots(*pattern, slot_views(variables@)));
            }
            Ok(QueryResults::Boolean(rows.len() > 0))
        },
    }
}

} // verus!

//! The projection of the solutions of a query onto some variables.

use crate::model::triple::{Term, TermView};
use crate::sparql::algebra::{variable_names, Variable};
use crate::sparql::plan_builder::{
    find_slot, lemma_position, position, slot_views, PlanVariable, PlanVariableView,
};
use crate::sparql::query::{solution_view, QuerySolution};
use vstd::prelude::*;

verus! {

/// The slots of a table that holds some variables, one for one.
pub open spec fn variable_slots(names: Seq<Seq<char>>) -> Seq<PlanVariableView> {
    Seq::new(names.len(), |j: int| PlanVariableView::Variable(names[j]))
}

/// What a solution binds to some variables, one for one: what stands at the
/// slot of the variable, and nothing for a variable without a slot.
pub open spec fn projected_row(
    values: Seq<Option<TermView>>,
    table: Seq<PlanVariableView>,
    onto: Seq<Seq<char>>,
) -> Seq<Option<TermView>> {
    Seq::new(
        onto.len(),
        |j: int|
            match position(table, PlanVariableView::Variable(onto[j])) {
                Some(at) => if at < values.len() {
                    values[at]
                } else {
                    None
                },
                None => None,
            },
    )
}

/// What some solutions bind to some variables, solution by solution.
pub open spec fn projected(
    rows: Seq<Seq<Option<TermView>>>,
    table: Seq<PlanVariableView>,
    onto: Seq<Seq<char>>,
) -> Seq<Seq<Option<TermView>>> {
    Seq::new(rows.len(), |k: int| projected_row(rows[k], table, onto))
}

/// What some solutions are, one for one.
pub open spec fn solution_views(solutions: Seq<QuerySolution>) -> Seq<Seq<Option<TermView>>> {
    Seq::new(solutions.len(), |k: int| solution_view(solutions[k].values@))
}

fn copy_value(value: &Option<Term>) -> (r: Option<Term>)
    ensures
        solution_view(seq![r]) == solution_view(seq![*value]),
{
    let r = match value {
        Some(term) => Some(term.duplicate()),
        None => None,
    };
    proof {
        assert(solution_view(seq![r]) =~= solution_view(seq![*value]));
    }
    r
}

/// Projects some solutions onto some variables: a table with a slot for
/// each of the variables, in their order, and for each solution what it
/// binds to them. The solutions stay in their order, and each stays as
/// often as it was there.
pub fn project_solutions(
    variables: &Vec<PlanVariable>,
    solutions: &Vec<QuerySolution>,
    onto: &Vec<Variable>,
) -> (r: (Vec<PlanVariable>, Vec<QuerySolution>))
    ensures
        slot_views(r.0@) == variable_slots(variable_names(onto@)),
        solution_views(r.1@) == projected(
            solution_views(solutions@),
            slot_views(variables@),
            variable_names(onto@),
        ),
{
    let ghost table = slot_views(variables@);
    let ghost names = variable_names(onto@);
    let mut places: Vec<Option<usize>> = Vec::new();
    let mut slots: Vec<PlanVariable> = Vec::new();
    let mut j: usize = 0;
    while j < onto.len()
        invariant
            j <= onto@.len(),
            table == slot_views(variables@),
            names == variable_names(onto@),
            places@.len() == j,
            slots@.len() == j,
            forall|i: int| 0 <= i < j ==> (#[trigger] slots@[i])@ == PlanVariableView::Variable(names[i]),
            forall|i: int|
                0 <= i < j ==> match #[trigger] places@[i] {
                    Some(at) => position(table, PlanVariableView::Variable(names[i])) == Some(
                        at as int,
                    ),
                    None => position(table, PlanVariableView::Variable(names[i])) is None,
                },
        decreases onto@.len() - j,
    {
        let key = PlanVariable::Variable(onto[j].duplicate());
        places.push(find_slot(variables, &key));
        slots.push(key);
        j += 1;
    }
    proof {
        assert(slot_views(slots@) =~= variable_slots(names));
    }
    let mut out: Vec<QuerySolution> = Vec::new();
    let mut k: usize = 0;
    let ghost rows = solution_views(solutions@);
    while k < solutions.len()
        invariant
            k <= solutions@.len(),
            rows == solution_views(solutions@),
            names == variable_names(onto@),
            places@.len() == names.len(),
            out@.len() == k,
            forall|i: int|
                0 <= i < places@.len() ==> match #[trigger] places@[i] {
                    Some(at) => position(table, PlanVariableView::Variable(names[i])) == Some(
                        at as int,
                    ),
                    None => position(table, PlanVariableView::Variable(names[i])) is None,
                },
            forall|i: int|
                0 <= i < k ==> solution_view((#[trigger] out@[i]).values@) == projected_row(
                    rows[i],
                    table,
                    names,
                ),
        decreases solutions@.len() - k,
    {
        let row = &solutions[k].values;
        let ghost wanted = projected_row(rows[k as int], table, names);
        let mut values: Vec<Option<Term>> = Vec::new();
        let mut column: usize = 0;
        proof {
            assert(solution_view(values@) =~= wanted.take(0));
        }
        while column < places.len()
            invariant
                column <= places@.len(),
                places@.len() == names.len(),
                k < solutions@.len(),
                row@ == solutions@[k as int].values@,
                rows == solution_views(solutions@),
                wanted == projected_row(rows[k as int], table, names),
                forall|i: int|
                    0 <= i < places@.len() ==> match #[trigger] places@[i] {
                        Some(at) => position(table, PlanVariableView::Variable(names[i])) == Some(
                            at as int,
                        ),
                        None => position(table, PlanVariableView::Variable(names[i])) is None,
                    },
                solution_view(values@) == wanted.take(column as int),
            decreases places@.len() - column,
        {
            let ghost before = solution_view(values@);
            let ghost place = places@[column as int];
            let value = match places[column] {
                Some(at) => if at < row.len() {
                    copy_value(&row[at])
                } else {
                    None
                },
                None => None,
            };
            values.push(value);
            proof {
                let bound = solution_view(seq![value])[0];
                assert(solution_view(values@) =~= before.push(bound));
                assert(rows[k as int] == solution_view(row@));
                match place {
                    Some(at) => {
                        if at < row@.len() {
                            assert(solution_view(seq![row@[at as int]])[0] == solution_view(
                                row@,
                            )[at as int]);
                        }
                    },
                    None => {},
                }
                assert(bound == wanted[column as int]);
                assert(wanted.take(column as int + 1) =~= wanted.take(column as int).push(
                    wanted[column as int],
                ));
            }
            column += 1;
        }
        proof {
            assert(wanted.take(wanted.len() as int) =~= wanted);
        }
        out.push(QuerySolution { values });
        k += 1;
    }
    proof {
        assert(solution_views(out@) =~= projected(rows, table, names));
    }
    (slots, out)
}

/// Projecting onto every variable of the table, in the order of the table,
/// changes nothing: the solutions of a query that asks for every variable
/// by its name are those of the query that asks for all of them at once,
/// in the same order and each as often.
pub proof fn lemma_projection_onto_every_variable(
    rows: Seq<Seq<Option<TermView>>>,
    table: Seq<PlanVariableView>,
    onto: Seq<Seq<char>>,
)
    requires
        table == variable_slots(onto),
        onto.no_duplicates(),
        forall|k: int| 0 <= k < rows.len() ==> (#[trigger] rows[k]).len() == table.len(),
    ensures
        projected(rows, table, onto) == rows,
{
    assert forall|k: int| 0 <= k < rows.len() implies projected(rows, table, onto)[k]
        == rows[k] by {
        let row = rows[k];
        let wanted = projected_row(row, table, onto);
        assert forall|j: int| 0 <= j < onto.len() implies wanted[j] == row[j] by {
            let key = PlanVariableView::Variable(onto[j]);
            lemma_position(table, key);
            assert(table[j] == key);
            assert(table.contains(key));
            let at = position(table, key)->Some_0;
            assert(table[at] == PlanVariableView::Variable(onto[at]));
            assert(onto[at] == onto[j]);
        }
        assert(wanted =~= row);
    }
    assert(projected(rows, table, onto) =~= rows);
}

/// Projecting twice is projecting onto the second variables, where the
/// first projection kept each of them.
pub proof fn lemma_projection_twice(
    rows: Seq<Seq<Option<TermView>>>,
    table: Seq<PlanVariableView>,
    first: Seq<Seq<char>>,
    second: Seq<Seq<char>>,
)
    requires
        forall|j: int| 0 <= j < second.len() ==> first.contains(#[trigger] second[j]),
    ensures
        projected(projected(rows, table, first), variable_slots(first), second) == projected(
            rows,
            table,
            second,
        ),
{
    let once = projected(rows, table, first);
    let middle = variable_slots(first);
    assert forall|k: int| 0 <= k < rows.len() implies projected(once, middle, second)[k]
        == projected(rows, table, second)[k] by {
        let row = rows[k];
        let kept = projected_row(row, table, first);
        assert(once[k] == kept);
        let twice = projected_row(kept, middle, second);
        let direct = projected_row(row, table, second);
        assert forall|j: int| 0 <= j < second.len() implies twice[j] == direct[j] by {
            let key = PlanVariableView::Variable(second[j]);
            lemma_position(middle, key);
            assert(first.contains(second[j]));
            let i = choose|i: int| 0 <= i < first.len() && first[i] == second[j];
            assert(middle[i] == key);
            assert(middle.contains(key));
            let at = position(middle, key)->Some_0;
            assert(middle[at] == PlanVariableView::Variable(first[at]));
            assert(first[at] == second[j]);
        }
        assert(twice =~= direct);
    }
    assert(projected(once, middle, second) =~= projected(rows, table, second));
}

} // verus!

//! The evaluation of a plan over a state of the store.

use crate::sparql::plan::{
    bound_by_quad, graph_is_visible, optional_solutions, pattern_solutions, solutions,
    store_pattern, tuple_views, Bindings, EncodedTuple, PatternValue, PlanNode,
};
use crate::storage::index::QuadPattern;
use crate::storage::numeric_encoder::EncodedQuad;
use crate::storage::store::StorageReader;
use crate::seq_sets::lemma_push_to_set;
use vstd::prelude::*;

verus! {

/// The union of some sets.
pub open spec fn union_over(steps: Seq<Set<Bindings>>) -> Set<Bindings>
    decreases steps.len(),
{
    if steps.len() == 0 {
        Set::empty()
    } else {
        union_over(steps.drop_last()).union(steps.last())
    }
}

proof fn lemma_union_over(steps: Seq<Set<Bindings>>, tuple: Bindings)
    ensures
        union_over(steps).contains(tuple) <==> exists|k: int|
            0 <= k < steps.len() && (#[trigger] steps[k]).contains(tuple),
    decreases steps.len(),
{
    if steps.len() > 0 {
        let front = steps.drop_last();
        lemma_union_over(front, tuple);
        if union_over(steps).contains(tuple) {
            if steps.last().contains(tuple) {
                assert(steps[steps.len() - 1].contains(tuple));
            } else {
                let k = choose|k: int| 0 <= k < front.len() && (#[trigger] front[k]).contains(tuple);
                assert(steps[k].contains(tuple));
            }
        }
        if exists|k: int| 0 <= k < steps.len() && (#[trigger] steps[k]).contains(tuple) {
            let k = choose|k: int| 0 <= k < steps.len() && (#[trigger] steps[k]).contains(tuple);
            if k < front.len() {
                assert(front[k].contains(tuple));
            }
        }
    }
}

proof fn lemma_tuples_push(tuples: Seq<EncodedTuple>, tuple: EncodedTuple)
    ensures
        tuple_views(tuples.push(tuple)).to_set() == tuple_views(tuples).to_set().insert(tuple@),
{
    assert(tuple_views(tuples.push(tuple)) =~= tuple_views(tuples).push(tuple@));
    lemma_push_to_set(tuple_views(tuples), tuple@);
}

/// The tuple bound further by a quad, where the pattern may look into the
/// graph of the quad.
pub open spec fn visible_bound(
    subject: PatternValue,
    predicate: PatternValue,
    object: PatternValue,
    graph_name: PatternValue,
    quad: EncodedQuad,
    from: Bindings,
) -> Option<Bindings> {
    if graph_is_visible(graph_name, quad) {
        bound_by_quad(subject, predicate, object, graph_name, quad, from)
    } else {
        None
    }
}

/// The tuples that some quads give for one tuple, in the order of the
/// quads: one for each quad by which the tuple can be bound further.
pub open spec fn bound_rows(
    subject: PatternValue,
    predicate: PatternValue,
    object: PatternValue,
    graph_name: PatternValue,
    quads: Seq<EncodedQuad>,
    from: Bindings,
) -> Seq<Bindings>
    decreases quads.len(),
{
    if quads.len() == 0 {
        Seq::empty()
    } else {
        let front = bound_rows(subject, predicate, object, graph_name, quads.drop_last(), from);
        match visible_bound(subject, predicate, object, graph_name, quads.last(), from) {
            Some(tuple) => front.push(tuple),
            None => front,
        }
    }
}

/// The tuples that a quad pattern gives for one tuple, in the order in
/// which the store gives the quads that the pattern asks for.
pub open spec fn pattern_rows(
    subject: PatternValue,
    predicate: PatternValue,
    object: PatternValue,
    graph_name: PatternValue,
    reader: StorageReader,
    from: Bindings,
) -> Seq<Bindings> {
    bound_rows(
        subject,
        predicate,
        object,
        graph_name,
        reader.pattern_quads(store_pattern(subject, predicate, object, graph_name, from)),
        from,
    )
}

/// The tuples that a quad pattern gives for some tuples, one after the
/// other.
pub open spec fn pattern_each(
    subject: PatternValue,
    predicate: PatternValue,
    object: PatternValue,
    graph_name: PatternValue,
    reader: StorageReader,
    middles: Seq<Bindings>,
) -> Seq<Bindings>
    decreases middles.len(),
{
    if middles.len() == 0 {
        Seq::empty()
    } else {
        pattern_each(subject, predicate, object, graph_name, reader, middles.drop_last())
            + pattern_rows(subject, predicate, object, graph_name, reader, middles.last())
    }
}

/// The tuples that a plan gives for some tuples, one after the other.
pub open spec fn join_each(right: PlanNode, reader: StorageReader, middles: Seq<Bindings>) -> Seq<
    Bindings,
>
    decreases right, middles.len() + 1,
{
    if middles.len() == 0 {
        Seq::empty()
    } else {
        join_each(right, reader, middles.drop_last()) + rows_of(right, reader, middles.last())
    }
}

/// The tuples of an optional part for one tuple: those of the part, or the
/// tuple itself where the part gives none.
pub open spec fn optional_rows(part: Seq<Bindings>, from: Bindings) -> Seq<Bindings> {
    if part.len() == 0 {
        seq![from]
    } else {
        part
    }
}

/// The tuples that an optional plan gives for some tuples, one after the
/// other.
pub open spec fn optional_each(right: PlanNode, reader: StorageReader, middles: Seq<Bindings>) -> Seq<
    Bindings,
>
    decreases right, middles.len() + 1,
{
    if middles.len() == 0 {
        Seq::empty()
    } else {
        optional_each(right, reader, middles.drop_last()) + optional_rows(
            rows_of(right, reader, middles.last()),
            middles.last(),
        )
    }
}

/// The tuples that a node gives for a tuple over a state of the store, each
/// as often as the node gives it and in the order in which it gives them: a
/// quad pattern gives, for each tuple of its child in turn, one tuple for
/// each quad that it matches, in the order of the keys of the index that
/// serves it; a join and an optional part give, for each tuple of the left
/// in turn, the tuples of the right; a union gives the tuples of the left,
/// then those of the right.
pub open spec fn rows_of(node: PlanNode, reader: StorageReader, from: Bindings) -> Seq<Bindings>
    decreases node, 0nat,
{
    match node {
        PlanNode::Init => seq![from],
        PlanNode::QuadPattern { child, subject, predicate, object, graph_name } => pattern_each(
            subject,
            predicate,
            object,
            graph_name,
            reader,
            rows_of(*child, reader, from),
        ),
        PlanNode::Join { left, right } => join_each(*right, reader, rows_of(*left, reader, from)),
        PlanNode::LeftJoin { left, right } => optional_each(
            *right,
            reader,
            rows_of(*left, reader, from),
        ),
        PlanNode::Union { left, right } => rows_of(*left, reader, from) + rows_of(
            *right,
            reader,
            from,
        ),
    }
}

/// The tuples that some quads give for one tuple.
spec fn bound_all(
    subject: PatternValue,
    predicate: PatternValue,
    object: PatternValue,
    graph_name: PatternValue,
    quads: Seq<EncodedQuad>,
    from: Bindings,
) -> Set<Bindings>
    decreases quads.len(),
{
    if quads.len() == 0 {
        Set::empty()
    } else {
        let front = bound_all(subject, predicate, object, graph_name, quads.drop_last(), from);
        match visible_bound(subject, predicate, object, graph_name, quads.last(), from) {
            Some(tuple) => front.insert(tuple),
            None => front,
        }
    }
}

proof fn lemma_bound_all(
    subject: PatternValue,
    predicate: PatternValue,
    object: PatternValue,
    graph_name: PatternValue,
    quads: Seq<EncodedQuad>,
    from: Bindings,
    tuple: Bindings,
)
    ensures
        bound_all(subject, predicate, object, graph_name, quads, from).contains(tuple)
            <==> exists|k: int|
            0 <= k < quads.len() && visible_bound(
                subject,
                predicate,
                object,
                graph_name,
                #[trigger] quads[k],
                from,
            ) == Some(tuple),
    decreases quads.len(),
{
    if quads.len() > 0 {
        let front = quads.drop_last();
        lemma_bound_all(subject, predicate, object, graph_name, front, from, tuple);
        if bound_all(subject, predicate, object, graph_name, quads, from).contains(tuple) {
            if visible_bound(subject, predicate, object, graph_name, quads.last(), from) == Some(
                tuple,
            ) {
                assert(visible_bound(
                    subject,
                    predicate,
                    object,
                    graph_name,
                    quads[quads.len() - 1],
                    from,
                ) == Some(tuple));
            } else {
                let k = choose|k: int|
                    0 <= k < front.len() && visible_bound(
                        subject,
                        predicate,
                        object,
                        graph_name,
                        #[trigger] front[k],
                        from,
                    ) == Some(tuple);
                assert(quads[k] == front[k]);
            }
        }
        if exists|k: int|
            0 <= k < quads.len() && visible_bound(
                subject,
                predicate,
                object,
                graph_name,
                #[trigger] quads[k],
                from,
            ) == Some(tuple) {
            let k = choose|k: int|
                0 <= k < quads.len() && visible_bound(
                    subject,
                    predicate,
                    object,
                    graph_name,
                    #[trigger] quads[k],
                    from,
                ) == Some(tuple);
            if k < front.len() {
                assert(front[k] == quads[k]);
            }
        }
    }
}

/// Appends to `out` the tuples that a quad pattern gives for one tuple.
fn eval_quad_pattern(
    subject: &PatternValue,
    predicate: &PatternValue,
    object: &PatternValue,
    graph_name: &PatternValue,
    reader: &StorageReader,
    from: &EncodedTuple,
    out: &mut Vec<EncodedTuple>,
)
    requires
        reader.wf(),
    ensures
        tuple_views(final(out)@) == tuple_views(old(out)@) + pattern_rows(
            *subject,
            *predicate,
            *object,
            *graph_name,
            *reader,
            from@,
        ),
        tuple_views(final(out)@).to_set() == tuple_views(old(out)@).to_set().union(
            pattern_solutions(
                *subject,
                *predicate,
                *object,
                *graph_name,
                reader.quads(),
                from@,
            ),
        ),
{
    let pattern = QuadPattern {
        subject: subject.term(from),
        predicate: predicate.term(from),
        object: object.term(from),
        graph_name: graph_name.term(from),
    };
    let quads = reader.quads_for_pattern(&pattern);
    let ghost start = tuple_views(out@).to_set();
    let ghost first = tuple_views(out@);
    let mut i: usize = 0;
    proof {
        assert(pattern == store_pattern(*subject, *predicate, *object, *graph_name, from@));
        assert(quads@.take(0) =~= Seq::<EncodedQuad>::empty());
        assert(tuple_views(out@) =~= first + bound_rows(
            *subject,
            *predicate,
            *object,
            *graph_name,
            quads@.take(0),
            from@,
        ));
        assert(tuple_views(out@).to_set() =~= start.union(
            bound_all(*subject, *predicate, *object, *graph_name, quads@.take(0), from@),
        ));
    }
    while i < quads.len()
        invariant
            i <= quads@.len(),
            tuple_views(out@) == first + bound_rows(
                *subject,
                *predicate,
                *object,
                *graph_name,
                quads@.take(i as int),
                from@,
            ),
            tuple_views(out@).to_set() == start.union(
                bound_all(
                    *subject,
                    *predicate,
                    *object,
                    *graph_name,
                    quads@.take(i as int),
                    from@,
                ),
            ),
        decreases quads@.len() - i,
    {
        let quad = &quads[i];
        let mut tuple = from.duplicate();
        let visible = match graph_name {
            PatternValue::Variable(_) => !quad.graph_name.is_default_graph(),
            PatternValue::Constant(_) => true,
        };
        let mut fits = visible && subject.bind(&quad.subject, &mut tuple);
        if fits {
            fits = predicate.bind(&quad.predicate, &mut tuple);
        }
        if fits {
            fits = object.bind(&quad.object, &mut tuple);
        }
        if fits {
            fits = graph_name.bind(&quad.graph_name, &mut tuple);
        }
        proof {
            assert(quads@.take(i as int + 1).drop_last() =~= quads@.take(i as int));
            assert(quads@.take(i as int + 1).last() == quads@[i as int]);
            assert(fits == visible_bound(
                *subject,
                *predicate,
                *object,
                *graph_name,
                quads@[i as int],
                from@,
            ) is Some);
        }
        if fits {
            proof {
                lemma_tuples_push(out@, tuple);
                assert(Some(tuple@) == visible_bound(
                    *subject,
                    *predicate,
                    *object,
                    *graph_name,
                    quads@[i as int],
                    from@,
                ));
            }
            let ghost before_push = tuple_views(out@);
            out.push(tuple);
            proof {
                assert(tuple_views(out@) =~= before_push.push(tuple@));
                assert(tuple_views(out@) =~= first + bound_rows(
                    *subject,
                    *predicate,
                    *object,
                    *graph_name,
                    quads@.take(i as int + 1),
                    from@,
                ));
                assert(tuple_views(out@).to_set() =~= start.union(
                    bound_all(
                        *subject,
                        *predicate,
                        *object,
                        *graph_name,
                        quads@.take(i as int + 1),
                        from@,
                    ),
                ));
            }
        }
        i += 1;
    }
    proof {
        assert(quads@.take(quads@.len() as int) =~= quads@);
        let found = bound_all(*subject, *predicate, *object, *graph_name, quads@, from@);
        let wanted = pattern_solutions(
            *subject,
            *predicate,
            *object,
            *graph_name,
            reader.quads(),
            from@,
        );
        assert forall|tuple: Bindings| found.contains(tuple) <==> wanted.contains(tuple) by {
            lemma_bound_all(*subject, *predicate, *object, *graph_name, quads@, from@, tuple);
            if found.contains(tuple) {
                let k = choose|k: int|
                    0 <= k < quads@.len() && visible_bound(
                        *subject,
                        *predicate,
                        *object,
                        *graph_name,
                        #[trigger] quads@[k],
                        from@,
                    ) == Some(tuple);
                assert(quads@.contains(quads@[k]));
                assert(reader.quads().contains(quads@[k]));
            }
            if wanted.contains(tuple) {
                let quad = choose|quad: EncodedQuad|
                    #![trigger reader.quads().contains(quad)]
                    reader.quads().contains(quad) && graph_is_visible(*graph_name, quad)
                        && store_pattern(
                        *subject,
                        *predicate,
                        *object,
                        *graph_name,
                        from@,
                    ).matches(quad) && bound_by_quad(
                        *subject,
                        *predicate,
                        *object,
                        *graph_name,
                        quad,
                        from@,
                    ) == Some(tuple);
                assert(quads@.contains(quad));
                let k = choose|k: int| 0 <= k < quads@.len() && quads@[k] == quad;
                assert(visible_bound(
                    *subject,
                    *predicate,
                    *object,
                    *graph_name,
                    quads@[k],
                    from@,
                ) == Some(tuple));
            }
        }
        assert(found =~= wanted);
    }
}

/// Appends the tuples of a list to `out`.
fn append_tuples(out: &mut Vec<EncodedTuple>, tuples: &Vec<EncodedTuple>)
    ensures
        tuple_views(final(out)@) == tuple_views(old(out)@) + tuple_views(tuples@),
        tuple_views(final(out)@).to_set() == tuple_views(old(out)@).to_set().union(
            tuple_views(tuples@).to_set(),
        ),
{
    let ghost start = tuple_views(out@).to_set();
    let ghost first = tuple_views(out@);
    let mut i: usize = 0;
    proof {
        assert(tuple_views(tuples@.take(0)) =~= Seq::<Bindings>::empty());
        assert(tuple_views(out@) =~= first + tuple_views(tuples@.take(0)));
        assert(tuple_views(out@).to_set() =~= start.union(
            tuple_views(tuples@.take(0)).to_set(),
        ));
    }
    while i < tuples.len()
        invariant
            i <= tuples@.len(),
            tuple_views(out@) == first + tuple_views(tuples@.take(i as int)),
            tuple_views(out@).to_set() == start.union(
                tuple_views(tuples@.take(i as int)).to_set(),
            ),
        decreases tuples@.len() - i,
    {
        let tuple = tuples[i].duplicate();
        let ghost before_push = tuple_views(out@);
        proof {
            lemma_tuples_push(out@, tuple);
            lemma_tuples_push(tuples@.take(i as int), tuples@[i as int]);
            assert(tuples@.take(i as int + 1) =~= tuples@.take(i as int).push(tuples@[i as int]));
        }
        out.push(tuple);
        proof {
            assert(tuple_views(out@) =~= before_push.push(tuples@[i as int]@));
            assert(tuple_views(out@) =~= first + tuple_views(tuples@.take(i as int + 1)));
            assert(tuple_views(out@).to_set() =~= start.union(
                tuple_views(tuples@.take(i as int + 1)).to_set(),
            ));
        }
        i += 1;
    }
    proof {
        assert(tuples@.take(tuples@.len() as int) =~= tuples@);
    }
}

/// The sets that a step gives for each of the tuples of a child.
spec fn pattern_steps(
    subject: PatternValue,
    predicate: PatternValue,
    object: PatternValue,
    graph_name: PatternValue,
    quads: Set<EncodedQuad>,
    middles: Seq<Bindings>,
) -> Seq<Set<Bindings>> {
    Seq::new(
        middles.len(),
        |k: int| pattern_solutions(subject, predicate, object, graph_name, quads, middles[k]),
    )
}

spec fn join_steps(right: PlanNode, quads: Set<EncodedQuad>, middles: Seq<Bindings>) -> Seq<
    Set<Bindings>,
> {
    Seq::new(middles.len(), |k: int| solutions(right, quads, middles[k]))
}

spec fn optional_steps(right: PlanNode, quads: Set<EncodedQuad>, middles: Seq<Bindings>) -> Seq<
    Set<Bindings>,
> {
    Seq::new(
        middles.len(),
        |k: int| optional_solutions(solutions(right, quads, middles[k]), middles[k]),
    )
}

/// Evaluates a plan for a tuple over a state of the store: the tuples that
/// the plan gives, each as often as the plan gives it, in the order in which
/// it gives them. As a set they are the solutions of the plan.
pub fn eval_plan(node: &PlanNode, reader: &StorageReader, from: &EncodedTuple) -> (r: Vec<
    EncodedTuple,
>)
    requires
        reader.wf(),
    ensures
        tuple_views(r@) == rows_of(*node, *reader, from@),
        tuple_views(r@).to_set() == solutions(*node, reader.quads(), from@),
    decreases *node,
{
    let mut out: Vec<EncodedTuple> = Vec::new();
    let ghost quads = reader.quads();
    proof {
        assert(tuple_views(out@).to_set() =~= Set::<Bindings>::empty());
        assert(tuple_views(out@) =~= Seq::<Bindings>::empty());
    }
    match node {
        PlanNode::Init => {
            let tuple = from.duplicate();
            proof {
                lemma_tuples_push(out@, tuple);
            }
            out.push(tuple);
            proof {
                assert(tuple_views(out@) =~= seq![from@]);
                assert(tuple_views(out@).to_set() =~= set![from@]);
            }
        },
        PlanNode::QuadPattern { child, subject, predicate, object, graph_name } => {
            let middles = eval_plan(child, reader, from);
            let ghost views = tuple_views(middles@);
            let ghost steps = pattern_steps(
                *subject,
                *predicate,
                *object,
                *graph_name,
                quads,
                views,
            );
            let mut i: usize = 0;
            proof {
                assert(steps.take(0) =~= Seq::<Set<Bindings>>::empty());
            }
            while i < middles.len()
                invariant
                    reader.wf(),
                    quads == reader.quads(),
                    views == tuple_views(middles@),
                    steps == pattern_steps(
                        *subject,
                        *predicate,
                        *object,
                        *graph_name,
                        quads,
                        views,
                    ),
                    i <= middles@.len(),
                    tuple_views(out@).to_set() == union_over(steps.take(i as int)),
                    tuple_views(out@) == pattern_each(
                        *subject,
                        *predicate,
                        *object,
                        *graph_name,
                        *reader,
                        views.take(i as int),
                    ),
                decreases middles@.len() - i,
            {
                eval_quad_pattern(
                    subject,
                    predicate,
                    object,
                    graph_name,
                    reader,
                    &middles[i],
                    &mut out,
                );
                proof {
                    assert(steps.take(i as int + 1).drop_last() =~= steps.take(i as int));
                    assert(steps.take(i as int + 1).last() == steps[i as int]);
                    assert(views[i as int] == middles@[i as int]@);
                    assert(views.take(i as int + 1).drop_last() =~= views.take(i as int));
                    assert(views.take(i as int + 1).last() == views[i as int]);
                }
                i += 1;
            }
            proof {
                assert(views.take(views.len() as int) =~= views);
                assert(steps.take(steps.len() as int) =~= steps);
                let wanted = solutions(*node, quads, from@);
                assert forall|tuple: Bindings|
                    union_over(steps).contains(tuple) <==> wanted.contains(tuple) by {
                    lemma_union_over(steps, tuple);
                    if union_over(steps).contains(tuple) {
                        let k = choose|k: int|
                            0 <= k < steps.len() && (#[trigger] steps[k]).contains(tuple);
                        assert(views.contains(views[k]));
                        assert(solutions(**child, quads, from@).contains(views[k]));
                    }
                    if wanted.contains(tuple) {
                        let middle = choose|middle: Bindings|
                            #![trigger solutions(**child, quads, from@).contains(middle)]
                            solutions(**child, quads, from@).contains(middle)
                                && pattern_solutions(
                                *subject,
                                *predicate,
                                *object,
                                *graph_name,
                                quads,
                                middle,
                            ).contains(tuple);
                        assert(views.to_set().contains(middle));
                        let k = choose|k: int| 0 <= k < views.len() && views[k] == middle;
                        assert(steps[k].contains(tuple));
                    }
                }
                assert(union_over(steps) =~= wanted);
            }
        },
        PlanNode::Join { left, right } => {
            let middles = eval_plan(left, reader, from);
            let ghost views = tuple_views(middles@);
            let ghost steps = join_steps(**right, quads, views);
            let mut i: usize = 0;
            proof {
                assert(steps.take(0) =~= Seq::<Set<Bindings>>::empty());
            }
            while i < middles.len()
                invariant
                    reader.wf(),
                    quads == reader.quads(),
                    views == tuple_views(middles@),
                    steps == join_steps(**right, quads, views),
                    decreases_to!(*node => **right),
                    i <= middles@.len(),
                    tuple_views(out@).to_set() == union_over(steps.take(i as int)),
                    tuple_views(out@) == join_each(**right, *reader, views.take(i as int)),
                decreases middles@.len() - i,
            {
                let found = eval_plan(right, reader, &middles[i]);
                append_tuples(&mut out, &found);
                proof {
                    assert(steps.take(i as int + 1).drop_last() =~= steps.take(i as int));
                    assert(steps.take(i as int + 1).last() == steps[i as int]);
                    assert(views[i as int] == middles@[i as int]@);
                    assert(views.take(i as int + 1).drop_last() =~= views.take(i as int));
                    assert(views.take(i as int + 1).last() == views[i as int]);
                }
                i += 1;
            }
            proof {
                assert(views.take(views.len() as int) =~= views);
                assert(steps.take(steps.len() as int) =~= steps);
                let wanted = solutions(*node, quads, from@);
                assert forall|tuple: Bindings|
                    union_over(steps).contains(tuple) <==> wanted.contains(tuple) by {
                    lemma_union_over(steps, tuple);
                    if union_over(steps).contains(tuple) {
                        let k = choose|k: int|
                            0 <= k < steps.len() && (#[trigger] steps[k]).contains(tuple);
                        assert(views.contains(views[k]));
                        assert(solutions(**left, quads, from@).contains(views[k]));
                    }
                    if wanted.contains(tuple) {
                        let middle = choose|middle: Bindings|
                            #![trigger solutions(**left, quads, from@).contains(middle)]
                            solutions(**left, quads, from@).contains(middle) && solutions(
                                **right,
                                quads,
                                middle,
                            ).contains(tuple);
                        assert(views.to_set().contains(middle));
                        let k = choose|k: int| 0 <= k < views.len() && views[k] == middle;
                        assert(steps[k].contains(tuple));
                    }
                }
                assert(union_over(steps) =~= wanted);
            }
        },
        PlanNode::LeftJoin { left, right } => {
            let middles = eval_plan(left, reader, from);
            let ghost views = tuple_views(middles@);
            let ghost steps = optional_steps(**right, quads, views);
            let mut i: usize = 0;
            proof {
                assert(steps.take(0) =~= Seq::<Set<Bindings>>::empty());
            }
            while i < middles.len()
                invariant
                    reader.wf(),
                    quads == reader.quads(),
                    views == tuple_views(middles@),
                    steps == optional_steps(**right, quads, views),
                    decreases_to!(*node => **right),
                    i <= middles@.len(),
                    tuple_views(out@).to_set() == union_over(steps.take(i as int)),
                    tuple_views(out@) == optional_each(**right, *reader, views.take(i as int)),
                decreases middles@.len() - i,
            {
                let found = eval_plan(right, reader, &middles[i]);
                proof {
                    assert(views[i as int] == middles@[i as int]@);
                    if found@.len() > 0 {
                        assert(tuple_views(found@).contains(tuple_views(found@)[0]));
                        assert(tuple_views(found@).to_set().contains(tuple_views(found@)[0]));
                    } else {
                        assert(tuple_views(found@).to_set() =~= Set::<Bindings>::empty());
                    }
                }
                let ghost before_step = tuple_views(out@);
                if found.len() == 0 {
                    let tuple = middles[i].duplicate();
                    proof {
                        lemma_tuples_push(out@, tuple);
                    }
                    out.push(tuple);
                    proof {
                        assert(tuple_views(out@) =~= before_step + seq![views[i as int]]);
                        assert(tuple_views(out@).to_set() =~= union_over(
                            steps.take(i as int),
                        ).union(set![views[i as int]]));
                    }
                } else {
                    append_tuples(&mut out, &found);
                }
                proof {
                    assert(steps.take(i as int + 1).drop_last() =~= steps.take(i as int));
                    assert(steps.take(i as int + 1).last() == steps[i as int]);
                    assert(views.take(i as int + 1).drop_last() =~= views.take(i as int));
                    assert(views.take(i as int + 1).last() == views[i as int]);
                    assert(tuple_views(out@) == before_step + optional_rows(
                        tuple_views(found@),
                        views[i as int],
                    ));
                }
                i += 1;
            }
            proof {
                assert(views.take(views.len() as int) =~= views);
                assert(steps.take(steps.len() as int) =~= steps);
                let wanted = solutions(*node, quads, from@);
                assert forall|tuple: Bindings|
                    union_over(steps).contains(tuple) <==> wanted.contains(tuple) by {
                    lemma_union_over(steps, tuple);
                    if union_over(steps).contains(tuple) {
                        let k = choose|k: int|
                            0 <= k < steps.len() && (#[trigger] steps[k]).contains(tuple);
                        assert(views.contains(views[k]));
                        assert(solutions(**left, quads, from@).contains(views[k]));
                    }
                    if wanted.contains(tuple) {
                        let middle = choose|middle: Bindings|
                            #![trigger solutions(**left, quads, from@).contains(middle)]
                            solutions(**left, quads, from@).contains(middle)
                                && optional_solutions(
                                solutions(**right, quads, middle),
                                middle,
                            ).contains(tuple);
                        assert(views.to_set().contains(middle));
                        let k = choose|k: int| 0 <= k < views.len() && views[k] == middle;
                        assert(steps[k].contains(tuple));
                    }
                }
                assert(union_over(steps) =~= wanted);
            }
        },
        PlanNode::Union { left, right } => {
            let first = eval_plan(left, reader, from);
            let second = eval_plan(right, reader, from);
            append_tuples(&mut out, &first);
            append_tuples(&mut out, &second);
            proof {
                assert(tuple_views(out@) =~= tuple_views(first@) + tuple_views(second@));
                assert(tuple_views(out@).to_set() =~= solutions(*node, quads, from@));
            }
        },
    }
    out
}

} // verus!

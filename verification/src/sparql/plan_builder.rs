//! From the pattern of a `WHERE` clause to a plan: every variable gets a
//! slot, and every term its encoding.

use crate::model::blank_node::{BlankNode, BlankNodeView};
use crate::sparql::algebra::{
    GraphPattern, NamedNodePattern, TermPattern, TriplePattern, Variable,
};
use crate::sparql::error::EvaluationError;
use crate::sparql::plan::{PatternValue, PlanNode};
use crate::storage::numeric_encoder::{encoded_literal, encoded_named_node, EncodedTerm};
use crate::text::copy_str;
use vstd::prelude::*;

verus! {

/// What has a slot in the tuples of a plan: a variable, or a blank node of
/// the pattern, which stands for any term as a variable does.
#[derive(Debug)]
pub enum PlanVariable {
    Variable(Variable),
    BlankNode(BlankNode),
}

/// What has a slot.
pub enum PlanVariableView {
    Variable(Seq<char>),
    BlankNode(BlankNodeView),
}

impl View for PlanVariable {
    type V = PlanVariableView;

    open spec fn view(&self) -> PlanVariableView {
        match *self {
            PlanVariable::Variable(variable) => PlanVariableView::Variable(variable@),
            PlanVariable::BlankNode(node) => PlanVariableView::BlankNode(node@),
        }
    }
}

impl PlanVariable {
    /// Whether two of them are the same.
    pub fn same(&self, other: &Self) -> (r: bool)
        ensures
            r == (self@ == other@),
    {
        match (self, other) {
            (PlanVariable::Variable(a), PlanVariable::Variable(b)) => a.same(b),
            (PlanVariable::BlankNode(a), PlanVariable::BlankNode(b)) => a.same(b),
            _ => false,
        }
    }
}

/// The table of the slots: what stands at each.
pub open spec fn slot_views(variables: Seq<PlanVariable>) -> Seq<PlanVariableView> {
    Seq::new(variables.len(), |i: int| variables[i]@)
}

/// The first slot at which something stands, if it stands at one.
pub open spec fn position(table: Seq<PlanVariableView>, key: PlanVariableView) -> Option<int>
    decreases table.len(),
{
    if table.len() == 0 {
        None
    } else {
        match position(table.drop_last(), key) {
            Some(at) => Some(at),
            None => if table.last() == key {
                Some(table.len() - 1)
            } else {
                None
            },
        }
    }
}

pub proof fn lemma_position(table: Seq<PlanVariableView>, key: PlanVariableView)
    ensures
        match position(table, key) {
            Some(at) => 0 <= at < table.len() && table[at] == key && forall|i: int|
                0 <= i < at ==> table[i] != key,
            None => !table.contains(key),
        },
    decreases table.len(),
{
    if table.len() > 0 {
        let front = table.drop_last();
        lemma_position(front, key);
        match position(front, key) {
            Some(at) => {
                assert(table[at] == front[at]);
                assert forall|i: int| 0 <= i < at implies table[i] != key by {
                    assert(front[i] == table[i]);
                }
            },
            None => {
                if table.last() == key {
                    assert forall|i: int| 0 <= i < table.len() - 1 implies table[i] != key by {
                        assert(front[i] == table[i]);
                        assert(front.contains(front[i]));
                    }
                } else {
                    if table.contains(key) {
                        let i = choose|i: int| 0 <= i < table.len() && table[i] == key;
                        assert(front[i] == key);
                    }
                }
            },
        }
    }
}

/// The first slot at which something stands, if it stands at one.
pub fn find_slot(variables: &Vec<PlanVariable>, key: &PlanVariable) -> (r: Option<usize>)
    ensures
        r is Some <==> position(slot_views(variables@), key@) is Some,
        r matches Some(at) ==> position(slot_views(variables@), key@) == Some(at as int) && at
            < variables@.len(),
{
    let mut i: usize = 0;
    let ghost table = slot_views(variables@);
    proof {
        lemma_position(table, key@);
    }
    while i < variables.len()
        invariant
            i <= variables@.len(),
            table == slot_views(variables@),
            forall|j: int| 0 <= j < i ==> table[j] != key@,
            match position(table, key@) {
                Some(at) => 0 <= at < table.len() && table[at] == key@ && forall|j: int|
                    0 <= j < at ==> table[j] != key@,
                None => !table.contains(key@),
            },
        decreases variables@.len() - i,
    {
        if variables[i].same(key) {
            proof {
                assert(table[i as int] == key@);
                assert(table.contains(key@));
            }
            return Some(i);
        }
        i += 1;
    }
    proof {
        if position(table, key@) is Some {
            let at = position(table, key@)->Some_0;
            assert(table[at] == key@);
        }
    }
    None
}

/// Gives something a slot, if it has none: the next free one.
pub fn variable_key(variables: &mut Vec<PlanVariable>, key: PlanVariable) -> (r: usize)
    ensures
        r < final(variables)@.len(),
        position(slot_views(final(variables)@), key@) == Some(r as int),
        slot_views(final(variables)@) == if position(slot_views(old(variables)@), key@) is Some {
            slot_views(old(variables)@)
        } else {
            slot_views(old(variables)@).push(key@)
        },
{
    match find_slot(variables, &key) {
        Some(at) => at,
        None => {
            let ghost before = slot_views(variables@);
            variables.push(key);
            proof {
                let after = slot_views(variables@);
                assert(after =~= before.push(key@));
                assert(after.drop_last() =~= before);
            }
            variables.len() - 1
        },
    }
}

/// The place of a plan for a term of a pattern: the encoding of a term, the
/// slot of a variable or of a blank node. None for a variable without a slot,
/// and for a quoted triple pattern, which the plan does not take.
pub open spec fn term_value(term: TermPattern, table: Seq<PlanVariableView>) -> Option<
    PatternValue,
> {
    match term {
        TermPattern::NamedNode(node) => Some(PatternValue::Constant(encoded_named_node(node@))),
        TermPattern::BlankNode(node) => match position(
            table,
            PlanVariableView::BlankNode(node@),
        ) {
            Some(at) => Some(PatternValue::Variable(at as usize)),
            None => None,
        },
        TermPattern::Literal(literal) => Some(PatternValue::Constant(encoded_literal(literal@))),
        TermPattern::Triple(_) => None,
        TermPattern::Variable(variable) => match position(
            table,
            PlanVariableView::Variable(variable@),
        ) {
            Some(at) => Some(PatternValue::Variable(at as usize)),
            None => None,
        },
    }
}

/// The place of a plan for an IRI of a pattern.
pub open spec fn named_node_value(term: NamedNodePattern, table: Seq<PlanVariableView>) -> Option<
    PatternValue,
> {
    match term {
        NamedNodePattern::NamedNode(node) => Some(
            PatternValue::Constant(encoded_named_node(node@)),
        ),
        NamedNodePattern::Variable(variable) => match position(
            table,
            PlanVariableView::Variable(variable@),
        ) {
            Some(at) => Some(PatternValue::Variable(at as usize)),
            None => None,
        },
    }
}

/// The plan of some triple patterns in a graph: one node for each, the
/// first innermost.
pub open spec fn bgp_plan(
    patterns: Seq<TriplePattern>,
    table: Seq<PlanVariableView>,
    graph_name: PatternValue,
) -> Option<PlanNode>
    decreases patterns.len(),
{
    if patterns.len() == 0 {
        Some(PlanNode::Init)
    } else {
        let last = patterns.last();
        match bgp_plan(patterns.drop_last(), table, graph_name) {
            None => None,
            Some(child) => match term_value(last.subject, table) {
                None => None,
                Some(subject) => match named_node_value(last.predicate, table) {
                    None => None,
                    Some(predicate) => match term_value(last.object, table) {
                        None => None,
                        Some(object) => Some(
                            PlanNode::QuadPattern {
                                child: Box::new(child),
                                subject,
                                predicate,
                                object,
                                graph_name,
                            },
                        ),
                    },
                },
            },
        }
    }
}

/// The plan of a pattern in a graph, over a table of slots. None where the
/// pattern holds a variable without a slot or a quoted triple pattern.
pub open spec fn plan_of(
    pattern: GraphPattern,
    table: Seq<PlanVariableView>,
    graph_name: PatternValue,
) -> Option<PlanNode>
    decreases pattern,
{
    match pattern {
        GraphPattern::Bgp { patterns } => bgp_plan(patterns@, table, graph_name),
        GraphPattern::Join { left, right } => match plan_of(*left, table, graph_name) {
            None => None,
            Some(left) => match plan_of(*right, table, graph_name) {
                None => None,
                Some(right) => Some(
                    PlanNode::Join { left: Box::new(left), right: Box::new(right) },
                ),
            },
        },
        GraphPattern::LeftJoin { left, right } => match plan_of(*left, table, graph_name) {
            None => None,
            Some(left) => match plan_of(*right, table, graph_name) {
                None => None,
                Some(right) => Some(
                    PlanNode::LeftJoin { left: Box::new(left), right: Box::new(right) },
                ),
            },
        },
        GraphPattern::Union { left, right } => match plan_of(*left, table, graph_name) {
            None => None,
            Some(left) => match plan_of(*right, table, graph_name) {
                None => None,
                Some(right) => Some(
                    PlanNode::Union { left: Box::new(left), right: Box::new(right) },
                ),
            },
        },
        GraphPattern::Graph { name, inner } => match named_node_value(name, table) {
            None => None,
            Some(graph_name) => plan_of(*inner, table, graph_name),
        },
    }
}

fn slot_value(variables: &Vec<PlanVariable>, key: &PlanVariable) -> (r: Option<PatternValue>)
    ensures
        r == match position(slot_views(variables@), key@) {
            Some(at) => Some(PatternValue::Variable(at as usize)),
            None => None,
        },
{
    match find_slot(variables, key) {
        Some(at) => Some(PatternValue::Variable(at)),
        None => None,
    }
}

/// The place of a plan for a term of a pattern.
pub fn pattern_value(term: &TermPattern, variables: &Vec<PlanVariable>) -> (r: Option<
    PatternValue,
>)
    ensures
        r == term_value(*term, slot_views(variables@)),
{
    match term {
        TermPattern::NamedNode(node) => Some(
            PatternValue::Constant(EncodedTerm::from_named_node(node)),
        ),
        TermPattern::BlankNode(node) => {
            let key = PlanVariable::BlankNode(node.duplicate());
            slot_value(variables, &key)
        },
        TermPattern::Literal(literal) => Some(
            PatternValue::Constant(EncodedTerm::from_literal(literal)),
        ),
        TermPattern::Triple(_) => None,
        TermPattern::Variable(variable) => {
            let key = PlanVariable::Variable(variable.duplicate());
            slot_value(variables, &key)
        },
    }
}

/// The place of a plan for an IRI of a pattern.
pub fn named_node_pattern_value(term: &NamedNodePattern, variables: &Vec<PlanVariable>) -> (r:
    Option<PatternValue>)
    ensures
        r == named_node_value(*term, slot_views(variables@)),
{
    match term {
        NamedNodePattern::NamedNode(node) => Some(
            PatternValue::Constant(EncodedTerm::from_named_node(node)),
        ),
        NamedNodePattern::Variable(variable) => {
            let key = PlanVariable::Variable(variable.duplicate());
            slot_value(variables, &key)
        },
    }
}

fn build_bgp(patterns: &Vec<TriplePattern>, variables: &Vec<PlanVariable>, graph_name: &PatternValue) -> (r: Option<PlanNode>)
    ensures
        r == bgp_plan(patterns@, slot_views(variables@), *graph_name),
{
    let mut node = PlanNode::Init;
    let mut i: usize = 0;
    let ghost table = slot_views(variables@);
    proof {
        assert(patterns@.take(0) =~= Seq::<TriplePattern>::empty());
    }
    while i < patterns.len()
        invariant
            i <= patterns@.len(),
            table == slot_views(variables@),
            Some(node) == bgp_plan(patterns@.take(i as int), table, *graph_name),
        decreases patterns@.len() - i,
    {
        proof {
            assert(patterns@.take(i as int + 1).drop_last() =~= patterns@.take(i as int));
            assert(patterns@.take(i as int + 1).last() == patterns@[i as int]);
            assert(patterns@.take(patterns@.len() as int) =~= patterns@);
        }
        let pattern = &patterns[i];
        let subject = match pattern_value(&pattern.subject, variables) {
            Some(value) => value,
            None => {
                proof {
                    lemma_bgp_plan_fails(patterns@, table, *graph_name, i as int + 1);
                }
                return None;
            },
        };
        let predicate = match named_node_pattern_value(&pattern.predicate, variables) {
            Some(value) => value,
            None => {
                proof {
                    lemma_bgp_plan_fails(patterns@, table, *graph_name, i as int + 1);
                }
                return None;
            },
        };
        let object = match pattern_value(&pattern.object, variables) {
            Some(value) => value,
            None => {
                proof {
                    lemma_bgp_plan_fails(patterns@, table, *graph_name, i as int + 1);
                }
                return None;
            },
        };
        node = PlanNode::QuadPattern {
            child: Box::new(node),
            subject,
            predicate,
            object,
            graph_name: graph_name.duplicate(),
        };
        i += 1;
    }
    proof {
        assert(patterns@.take(patterns@.len() as int) =~= patterns@);
    }
    Some(node)
}

/// Where some of the first patterns have no plan, all of them have none.
proof fn lemma_bgp_plan_fails(
    patterns: Seq<TriplePattern>,
    table: Seq<PlanVariableView>,
    graph_name: PatternValue,
    n: int,
)
    requires
        0 <= n <= patterns.len(),
        bgp_plan(patterns.take(n), table, graph_name) is None,
    ensures
        bgp_plan(patterns, table, graph_name) is None,
    decreases patterns.len() - n,
{
    if n < patterns.len() {
        assert(patterns.take(n + 1).drop_last() =~= patterns.take(n));
        lemma_bgp_plan_fails(patterns, table, graph_name, n + 1);
    } else {
        assert(patterns.take(n) =~= patterns);
    }
}

/// Builds the plan of a pattern in a graph, over a table of slots.
pub fn build_plan(pattern: &GraphPattern, variables: &Vec<PlanVariable>, graph_name: &PatternValue) -> (r: Option<PlanNode>)
    ensures
        r == plan_of(*pattern, slot_views(variables@), *graph_name),
    decreases *pattern,
{
    match pattern {
        GraphPattern::Bgp { patterns } => build_bgp(patterns, variables, graph_name),
        GraphPattern::Join { left, right } => {
            let left = match build_plan(left, variables, graph_name) {
                Some(node) => node,
                None => { return None; },
            };
            let right = match build_plan(right, variables, graph_name) {
                Some(node) => node,
                None => { return None; },
            };
            Some(PlanNode::Join { left: Box::new(left), right: Box::new(right) })
        },
        GraphPattern::LeftJoin { left, right } => {
            let left = match build_plan(left, variables, graph_name) {
                Some(node) => node,
                None => { return None; },
            };
            let right = match build_plan(right, variables, graph_name) {
                Some(node) => node,
                None => { return None; },
            };
            Some(PlanNode::LeftJoin { left: Box::new(left), right: Box::new(right) })
        },
        GraphPattern::Union { left, right } => {
            let left = match build_plan(left, variables, graph_name) {
                Some(node) => node,
                None => { return None; },
            };
            let right = match build_plan(right, variables, graph_name) {
                Some(node) => node,
                None => { return None; },
            };
            Some(PlanNode::Union { left: Box::new(left), right: Box::new(right) })
        },
        GraphPattern::Graph { name, inner } => {
            match named_node_pattern_value(name, variables) {
                Some(graph_name) => build_plan(inner, variables, &graph_name),
                None => None,
            }
        },
    }
}

/// A table with a slot for something that had none: the next free one.
pub open spec fn with_slot(table: Seq<PlanVariableView>, key: PlanVariableView) -> Seq<
    PlanVariableView,
> {
    if position(table, key) is Some {
        table
    } else {
        table.push(key)
    }
}

/// A table with a slot for a term of a pattern, where it is a variable or a
/// blank node.
pub open spec fn with_term_slot(table: Seq<PlanVariableView>, term: TermPattern) -> Seq<
    PlanVariableView,
> {
    match term {
        TermPattern::BlankNode(node) => with_slot(table, PlanVariableView::BlankNode(node@)),
        TermPattern::Variable(variable) => with_slot(table, PlanVariableView::Variable(variable@)),
        _ => table,
    }
}

/// A table with a slot for an IRI of a pattern, where it is a variable.
pub open spec fn with_named_node_slot(table: Seq<PlanVariableView>, term: NamedNodePattern) -> Seq<
    PlanVariableView,
> {
    match term {
        NamedNodePattern::Variable(variable) => with_slot(
            table,
            PlanVariableView::Variable(variable@),
        ),
        _ => table,
    }
}

/// A table with slots for the subject, the predicate and the object of
/// each of some triple patterns, in this order.
pub open spec fn with_triples_slots(table: Seq<PlanVariableView>, patterns: Seq<TriplePattern>) -> Seq<
    PlanVariableView,
>
    decreases patterns.len(),
{
    if patterns.len() == 0 {
        table
    } else {
        let last = patterns.last();
        with_term_slot(
            with_named_node_slot(
                with_term_slot(with_triples_slots(table, patterns.drop_last()), last.subject),
                last.predicate,
            ),
            last.object,
        )
    }
}

/// A table with slots for the variables and the blank nodes of a pattern,
/// in the order in which they stand in the pattern; the name of a graph
/// comes before what is in the graph.
pub open spec fn with_slots(table: Seq<PlanVariableView>, pattern: GraphPattern) -> Seq<
    PlanVariableView,
>
    decreases pattern,
{
    match pattern {
        GraphPattern::Bgp { patterns } => with_triples_slots(table, patterns@),
        GraphPattern::Join { left, right } => with_slots(with_slots(table, *left), *right),
        GraphPattern::LeftJoin { left, right } => with_slots(with_slots(table, *left), *right),
        GraphPattern::Union { left, right } => with_slots(with_slots(table, *left), *right),
        GraphPattern::Graph { name, inner } => with_slots(with_named_node_slot(table, name), *inner),
    }
}

/// The table of the slots of a pattern.
pub open spec fn pattern_slots(pattern: GraphPattern) -> Seq<PlanVariableView> {
    with_slots(Seq::empty(), pattern)
}

fn collect_term(term: &TermPattern, variables: &mut Vec<PlanVariable>)
    ensures
        slot_views(final(variables)@) == with_term_slot(slot_views(old(variables)@), *term),
        extends(slot_views(final(variables)@), slot_views(old(variables)@)),
        match *term {
            TermPattern::Triple(_) => true,
            _ => term_value(*term, slot_views(final(variables)@)) is Some,
        },
{
    match term {
        TermPattern::BlankNode(node) => {
            let _ = variable_key(variables, PlanVariable::BlankNode(node.duplicate()));
        },
        TermPattern::Variable(variable) => {
            let _ = variable_key(variables, PlanVariable::Variable(variable.duplicate()));
        },
        _ => {},
    }
    proof {
        lemma_extends_push(slot_views(old(variables)@), slot_views(variables@));
    }
}

fn collect_named_node(term: &NamedNodePattern, variables: &mut Vec<PlanVariable>)
    ensures
        slot_views(final(variables)@) == with_named_node_slot(slot_views(old(variables)@), *term),
        extends(slot_views(final(variables)@), slot_views(old(variables)@)),
        named_node_value(*term, slot_views(final(variables)@)) is Some,
{
    match term {
        NamedNodePattern::Variable(variable) => {
            let _ = variable_key(variables, PlanVariable::Variable(variable.duplicate()));
        },
        _ => {},
    }
    proof {
        lemma_extends_push(slot_views(old(variables)@), slot_views(variables@));
    }
}

/// Whether a table holds what another holds, at the same slots, and maybe
/// more behind.
pub open spec fn extends(after: Seq<PlanVariableView>, before: Seq<PlanVariableView>) -> bool {
    before.len() <= after.len() && after.take(before.len() as int) == before
}

proof fn lemma_extends_push(before: Seq<PlanVariableView>, after: Seq<PlanVariableView>)
    requires
        after == before || exists|key: PlanVariableView| after == before.push(key),
    ensures
        extends(after, before),
{
    assert(after.take(before.len() as int) =~= before);
}

proof fn lemma_extends_transitive(
    a: Seq<PlanVariableView>,
    b: Seq<PlanVariableView>,
    c: Seq<PlanVariableView>,
)
    requires
        extends(b, a),
        extends(c, b),
    ensures
        extends(c, a),
{
    assert(c.take(a.len() as int) =~= b.take(a.len() as int));
}

/// What has a slot keeps it in a table that holds more behind.
proof fn lemma_position_extends(
    before: Seq<PlanVariableView>,
    after: Seq<PlanVariableView>,
    key: PlanVariableView,
)
    requires
        extends(after, before),
        position(before, key) is Some,
    ensures
        position(after, key) == position(before, key),
    decreases after.len() - before.len(),
{
    if after.len() > before.len() {
        let front = after.drop_last();
        assert(front.take(before.len() as int) =~= after.take(before.len() as int));
        lemma_position_extends(before, front, key);
    } else {
        assert(after =~= after.take(before.len() as int));
    }
}

proof fn lemma_term_value_extends(
    term: TermPattern,
    before: Seq<PlanVariableView>,
    after: Seq<PlanVariableView>,
)
    requires
        extends(after, before),
        term_value(term, before) is Some,
    ensures
        term_value(term, after) == term_value(term, before),
{
    match term {
        TermPattern::BlankNode(node) => lemma_position_extends(
            before,
            after,
            PlanVariableView::BlankNode(node@),
        ),
        TermPattern::Variable(variable) => lemma_position_extends(
            before,
            after,
            PlanVariableView::Variable(variable@),
        ),
        _ => {},
    }
}

proof fn lemma_named_node_value_extends(
    term: NamedNodePattern,
    before: Seq<PlanVariableView>,
    after: Seq<PlanVariableView>,
)
    requires
        extends(after, before),
        named_node_value(term, before) is Some,
    ensures
        named_node_value(term, after) == named_node_value(term, before),
{
    match term {
        NamedNodePattern::Variable(variable) => lemma_position_extends(
            before,
            after,
            PlanVariableView::Variable(variable@),
        ),
        _ => {},
    }
}

/// Whether no term of a triple pattern is a quoted triple pattern.
pub open spec fn triple_is_flat(pattern: TriplePattern) -> bool {
    !(pattern.subject is Triple) && !(pattern.object is Triple)
}

/// Whether a pattern holds no quoted triple pattern: the plans take none.
pub open spec fn is_supported(pattern: GraphPattern) -> bool
    decreases pattern,
{
    match pattern {
        GraphPattern::Bgp { patterns } => forall|i: int|
            0 <= i < patterns@.len() ==> triple_is_flat(#[trigger] patterns@[i]),
        GraphPattern::Join { left, right } => is_supported(*left) && is_supported(*right),
        GraphPattern::LeftJoin { left, right } => is_supported(*left) && is_supported(*right),
        GraphPattern::Union { left, right } => is_supported(*left) && is_supported(*right),
        GraphPattern::Graph { inner, .. } => is_supported(*inner),
    }
}

/// Whether every variable and blank node of a pattern has a slot.
pub open spec fn has_slots(pattern: GraphPattern, table: Seq<PlanVariableView>) -> bool
    decreases pattern,
{
    match pattern {
        GraphPattern::Bgp { patterns } => forall|i: int|
            0 <= i < patterns@.len() ==> triple_has_slots(#[trigger] patterns@[i], table),
        GraphPattern::Join { left, right } => has_slots(*left, table) && has_slots(*right, table),
        GraphPattern::LeftJoin { left, right } => has_slots(*left, table) && has_slots(
            *right,
            table,
        ),
        GraphPattern::Union { left, right } => has_slots(*left, table) && has_slots(*right, table),
        GraphPattern::Graph { name, inner } => named_node_value(name, table) is Some && has_slots(
            *inner,
            table,
        ),
    }
}

/// Whether every variable and blank node of a triple pattern has a slot.
pub open spec fn triple_has_slots(pattern: TriplePattern, table: Seq<PlanVariableView>) -> bool {
    &&& pattern.subject is Triple || term_value(pattern.subject, table) is Some
    &&& named_node_value(pattern.predicate, table) is Some
    &&& pattern.object is Triple || term_value(pattern.object, table) is Some
}

proof fn lemma_has_slots_extends(
    pattern: GraphPattern,
    before: Seq<PlanVariableView>,
    after: Seq<PlanVariableView>,
)
    requires
        extends(after, before),
        has_slots(pattern, before),
    ensures
        has_slots(pattern, after),
    decreases pattern,
{
    match pattern {
        GraphPattern::Bgp { patterns } => {
            assert forall|i: int| 0 <= i < patterns@.len() implies triple_has_slots(
                #[trigger] patterns@[i],
                after,
            ) by {
                lemma_triple_has_slots_extends(patterns@[i], before, after);
            }
        },
        GraphPattern::Join { left, right } => {
            lemma_has_slots_extends(*left, before, after);
            lemma_has_slots_extends(*right, before, after);
        },
        GraphPattern::LeftJoin { left, right } => {
            lemma_has_slots_extends(*left, before, after);
            lemma_has_slots_extends(*right, before, after);
        },
        GraphPattern::Union { left, right } => {
            lemma_has_slots_extends(*left, before, after);
            lemma_has_slots_extends(*right, before, after);
        },
        GraphPattern::Graph { name, inner } => {
            lemma_named_node_value_extends(name, before, after);
            lemma_has_slots_extends(*inner, before, after);
        },
    }
}

proof fn lemma_triple_has_slots_extends(
    pattern: TriplePattern,
    before: Seq<PlanVariableView>,
    after: Seq<PlanVariableView>,
)
    requires
        extends(after, before),
        triple_has_slots(pattern, before),
    ensures
        triple_has_slots(pattern, after),
{
    if !(pattern.subject is Triple) {
        lemma_term_value_extends(pattern.subject, before, after);
    }
    lemma_named_node_value_extends(pattern.predicate, before, after);
    if !(pattern.object is Triple) {
        lemma_term_value_extends(pattern.object, before, after);
    }
}

/// Gives a slot to every variable and blank node of a pattern that has
/// none, in the order in which they stand in the pattern.
pub fn collect_variables(pattern: &GraphPattern, variables: &mut Vec<PlanVariable>)
    ensures
        slot_views(final(variables)@) == with_slots(slot_views(old(variables)@), *pattern),
        extends(slot_views(final(variables)@), slot_views(old(variables)@)),
        has_slots(*pattern, slot_views(final(variables)@)),
    decreases *pattern,
{
    match pattern {
        GraphPattern::Bgp { patterns } => {
            let mut i: usize = 0;
            proof {
                lemma_extends_push(slot_views(variables@), slot_views(variables@));
                assert(patterns@.take(0) =~= Seq::<TriplePattern>::empty());
            }
            while i < patterns.len()
                invariant
                    i <= patterns@.len(),
                    slot_views(variables@) == with_triples_slots(
                        slot_views(old(variables)@),
                        patterns@.take(i as int),
                    ),
                    extends(slot_views(variables@), slot_views(old(variables)@)),
                    forall|k: int|
                        0 <= k < i ==> triple_has_slots(
                            #[trigger] patterns@[k],
                            slot_views(variables@),
                        ),
                decreases patterns@.len() - i,
            {
                let ghost start = slot_views(variables@);
                collect_term(&patterns[i].subject, variables);
                let ghost first = slot_views(variables@);
                collect_named_node(&patterns[i].predicate, variables);
                let ghost second = slot_views(variables@);
                collect_term(&patterns[i].object, variables);
                proof {
                    let end = slot_views(variables@);
                    assert(patterns@.take(i as int + 1).drop_last() =~= patterns@.take(i as int));
                    assert(patterns@.take(i as int + 1).last() == patterns@[i as int]);
                    lemma_extends_transitive(start, first, second);
                    lemma_extends_transitive(start, second, end);
                    lemma_extends_transitive(first, second, end);
                    lemma_extends_transitive(slot_views(old(variables)@), start, end);
                    if !(patterns@[i as int].subject is Triple) {
                        lemma_term_value_extends(patterns@[i as int].subject, first, end);
                    }
                    lemma_named_node_value_extends(patterns@[i as int].predicate, second, end);
                    assert forall|k: int| 0 <= k < i implies triple_has_slots(
                        #[trigger] patterns@[k],
                        end,
                    ) by {
                        lemma_triple_has_slots_extends(patterns@[k], start, end);
                    }
                }
                i += 1;
            }
            proof {
                assert(patterns@.take(patterns@.len() as int) =~= patterns@);
            }
        },
        GraphPattern::Join { left, right } => {
            collect_variables(left, variables);
            let ghost middle = slot_views(variables@);
            collect_variables(right, variables);
            proof {
                lemma_extends_transitive(
                    slot_views(old(variables)@),
                    middle,
                    slot_views(variables@),
                );
                lemma_has_slots_extends(**left, middle, slot_views(variables@));
            }
        },
        GraphPattern::LeftJoin { left, right } => {
            collect_variables(left, variables);
            let ghost middle = slot_views(variables@);
            collect_variables(right, variables);
            proof {
                lemma_extends_transitive(
                    slot_views(old(variables)@),
                    middle,
                    slot_views(variables@),
                );
                lemma_has_slots_extends(**left, middle, slot_views(variables@));
            }
        },
        GraphPattern::Union { left, right } => {
            collect_variables(left, variables);
            let ghost middle = slot_views(variables@);
            collect_variables(right, variables);
            proof {
                lemma_extends_transitive(
                    slot_views(old(variables)@),
                    middle,
                    slot_views(variables@),
                );
                lemma_has_slots_extends(**left, middle, slot_views(variables@));
            }
        },
        GraphPattern::Graph { name, inner } => {
            collect_named_node(name, variables);
            let ghost middle = slot_views(variables@);
            collect_variables(inner, variables);
            proof {
                lemma_extends_transitive(
                    slot_views(old(variables)@),
                    middle,
                    slot_views(variables@),
                );
                lemma_named_node_value_extends(*name, middle, slot_views(variables@));
            }
        },
    }
}

/// A pattern that is supported and whose variables all have a slot has a
/// plan.
pub proof fn lemma_plan_exists(
    pattern: GraphPattern,
    table: Seq<PlanVariableView>,
    graph_name: PatternValue,
)
    requires
        has_slots(pattern, table),
    ensures
        plan_of(pattern, table, graph_name) is Some <==> is_supported(pattern),
    decreases pattern,
{
    match pattern {
        GraphPattern::Bgp { patterns } => lemma_bgp_plan_exists(patterns@, table, graph_name),
        GraphPattern::Join { left, right } => {
            lemma_plan_exists(*left, table, graph_name);
            lemma_plan_exists(*right, table, graph_name);
        },
        GraphPattern::LeftJoin { left, right } => {
            lemma_plan_exists(*left, table, graph_name);
            lemma_plan_exists(*right, table, graph_name);
        },
        GraphPattern::Union { left, right } => {
            lemma_plan_exists(*left, table, graph_name);
            lemma_plan_exists(*right, table, graph_name);
        },
        GraphPattern::Graph { name, inner } => {
            lemma_plan_exists(*inner, table, named_node_value(name, table)->Some_0);
        },
    }
}

proof fn lemma_bgp_plan_exists(
    patterns: Seq<TriplePattern>,
    table: Seq<PlanVariableView>,
    graph_name: PatternValue,
)
    requires
        forall|i: int| 0 <= i < patterns.len() ==> triple_has_slots(#[trigger] patterns[i], table),
    ensures
        bgp_plan(patterns, table, graph_name) is Some <==> forall|i: int|
            0 <= i < patterns.len() ==> triple_is_flat(#[trigger] patterns[i]),
    decreases patterns.len(),
{
    if patterns.len() > 0 {
        let front = patterns.drop_last();
        assert forall|i: int| 0 <= i < front.len() implies triple_has_slots(
            #[trigger] front[i],
            table,
        ) by {
            assert(front[i] == patterns[i]);
        }
        lemma_bgp_plan_exists(front, table, graph_name);
        assert(triple_has_slots(patterns[patterns.len() - 1], table));
        if forall|i: int| 0 <= i < patterns.len() ==> triple_is_flat(#[trigger] patterns[i]) {
            assert forall|i: int| 0 <= i < front.len() implies triple_is_flat(
                #[trigger] front[i],
            ) by {
                assert(front[i] == patterns[i]);
            }
            assert(triple_is_flat(patterns[patterns.len() - 1]));
        }
        if bgp_plan(patterns, table, graph_name) is Some {
            assert forall|i: int| 0 <= i < patterns.len() implies triple_is_flat(
                #[trigger] patterns[i],
            ) by {
                if i < front.len() {
                    assert(front[i] == patterns[i]);
                }
            }
        }
    }
}

/// Whether an error is the one with which a pattern that holds a quoted
/// triple pattern is refused.
pub open spec fn is_refusal(error: EvaluationError) -> bool {
    error matches EvaluationError::Unsupported { msg } && msg@
        == "Quoted triple patterns are not supported"@
}

/// Builds the plan of a pattern over the default graph, with the table of
/// its slots. A pattern with a quoted triple pattern is refused.
pub fn build(pattern: &GraphPattern) -> (r: Result<(PlanNode, Vec<PlanVariable>), EvaluationError>)
    ensures
        r is Ok <==> is_supported(*pattern),
        r matches Ok((plan, variables)) ==> Some(plan) == plan_of(
            *pattern,
            slot_views(variables@),
            PatternValue::Constant(EncodedTerm::DefaultGraph),
        ) && has_slots(*pattern, slot_views(variables@)) && slot_views(variables@)
            == pattern_slots(*pattern),
        r matches Err(error) ==> is_refusal(error),
{
    let mut variables: Vec<PlanVariable> = Vec::new();
    proof {
        assert(slot_views(variables@) =~= Seq::<PlanVariableView>::empty());
    }
    collect_variables(pattern, &mut variables);
    let graph_name = PatternValue::Constant(EncodedTerm::DefaultGraph);
    proof {
        lemma_plan_exists(*pattern, slot_views(variables@), graph_name);
    }
    match build_plan(pattern, &variables, &graph_name) {
        Some(plan) => Ok((plan, variables)),
        None => Err(
            EvaluationError::Unsupported {
                msg: copy_str("Quoted triple patterns are not supported"),
            },
        ),
    }
}

} // verus!

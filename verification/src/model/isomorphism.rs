//! The canonical form of a graph: its blank nodes get the names that make
//! the graph the least among the graphs that differ from it only in the
//! names of their blank nodes. Every naming is tried, so that only graphs
//! with few blank nodes are brought into this form.

use crate::model::blank_node::{BlankNode, BlankNodeView};
use crate::model::graph::{lemma_listed_with_all, triple_views, Graph};
use crate::model::triple::{Subject, SubjectView, Term, TermView, Triple, TripleView};
use crate::model::triple_key::{lemma_key_tells_triples_apart, triple_key, triple_key_bytes};
use crate::seq_sets::lemma_push_to_set;
use crate::sparql::blank_nodes::{
    convert_triple, renamed_subject, renamed_term, renamed_triple, BlankNodeMap,
};
use crate::seq_sets::lemma_insert_anywhere_to_set;
use crate::storage::backend::{
    is_sorted, key_less, key_lt, lemma_key_lt_irreflexive, lemma_key_lt_total,
    lemma_key_lt_transitive, ColumnFamily,
};
use vstd::prelude::*;

verus! {

/// The greatest number of blank nodes of a graph that is brought into its
/// canonical form: with one more, there are more than 40320 namings to try.
pub const CANONICALIZATION_LIMIT: usize = 8;

/// The blank nodes of a term.
pub open spec fn term_blank_nodes(term: TermView) -> Set<BlankNodeView>
    decreases term,
{
    match term {
        TermView::BlankNode(node) => set![node],
        TermView::Triple(triple) => triple_blank_nodes(*triple),
        _ => Set::empty(),
    }
}

/// The blank nodes of a subject.
pub open spec fn subject_blank_nodes(subject: SubjectView) -> Set<BlankNodeView>
    decreases subject,
{
    match subject {
        SubjectView::BlankNode(node) => set![node],
        SubjectView::Triple(triple) => triple_blank_nodes(*triple),
        _ => Set::empty(),
    }
}

/// The blank nodes of a triple.
pub open spec fn triple_blank_nodes(triple: TripleView) -> Set<BlankNodeView>
    decreases triple,
{
    subject_blank_nodes(triple.subject).union(term_blank_nodes(triple.object))
}

/// The blank nodes of a graph.
pub open spec fn graph_blank_nodes(graph: Set<TripleView>) -> Set<BlankNodeView> {
    Set::new(
        |node: BlankNodeView|
            exists|triple: TripleView|
                graph.contains(triple) && #[trigger] triple_blank_nodes(triple).contains(node),
    )
}

/// A graph with what takes the place of its blank nodes.
pub open spec fn renamed_graph(graph: Set<TripleView>, map: Map<BlankNodeView, BlankNodeView>) -> Set<
    TripleView,
> {
    Set::new(
        |triple: TripleView|
            exists|before: TripleView|
                graph.contains(before) && #[trigger] renamed_triple(before, map) == triple,
    )
}

/// Whether a map gives no blank node to two blank nodes.
pub open spec fn is_renaming(map: Map<BlankNodeView, BlankNodeView>) -> bool {
    forall|a: BlankNodeView, b: BlankNodeView|
        map.contains_key(a) && map.contains_key(b) && #[trigger] map[a] == #[trigger] map[b] ==> a
            == b
}

/// What some blank nodes are, one for one.
pub open spec fn node_views(nodes: Seq<BlankNode>) -> Seq<BlankNodeView> {
    Seq::new(nodes.len(), |i: int| nodes[i]@)
}

fn collect_node(node: &BlankNode, nodes: &mut Vec<BlankNode>)
    requires
        node_views(old(nodes)@).no_duplicates(),
    ensures
        node_views(final(nodes)@).no_duplicates(),
        node_views(final(nodes)@).to_set() == node_views(old(nodes)@).to_set().insert(node@),
{
    let mut i: usize = 0;
    while i < nodes.len()
        invariant
            i <= nodes@.len(),
            *nodes == *old(nodes),
            node_views(nodes@).no_duplicates(),
            forall|k: int| 0 <= k < i ==> node_views(nodes@)[k] != node@,
        decreases nodes@.len() - i,
    {
        if nodes[i].same(node) {
            proof {
                let views = node_views(nodes@);
                assert(views[i as int] == node@);
                assert(views.contains(node@));
                assert(views.to_set().insert(node@) =~= views.to_set());
            }
            return ;
        }
        i += 1;
    }
    let ghost before = node_views(nodes@);
    nodes.push(node.duplicate());
    proof {
        assert(node_views(nodes@) =~= before.push(node@));
        lemma_push_to_set(before, node@);
        assert(!before.contains(node@));
    }
}

fn collect_in_term(term: &Term, nodes: &mut Vec<BlankNode>)
    requires
        node_views(old(nodes)@).no_duplicates(),
    ensures
        node_views(final(nodes)@).no_duplicates(),
        node_views(final(nodes)@).to_set() == node_views(old(nodes)@).to_set().union(
            term_blank_nodes(term@),
        ),
    decreases *term,
{
    let ghost before = node_views(nodes@).to_set();
    match term {
        Term::BlankNode(node) => {
            collect_node(node, nodes);
            proof {
                assert(before.insert(node@) =~= before.union(set![node@]));
            }
        },
        Term::Triple(triple) => collect_in_triple(triple, nodes),
        _ => {
            proof {
                assert(before.union(Set::<BlankNodeView>::empty()) =~= before);
            }
        },
    }
}

fn collect_in_subject(subject: &Subject, nodes: &mut Vec<BlankNode>)
    requires
        node_views(old(nodes)@).no_duplicates(),
    ensures
        node_views(final(nodes)@).no_duplicates(),
        node_views(final(nodes)@).to_set() == node_views(old(nodes)@).to_set().union(
            subject_blank_nodes(subject@),
        ),
    decreases *subject,
{
    let ghost before = node_views(nodes@).to_set();
    match subject {
        Subject::BlankNode(node) => {
            collect_node(node, nodes);
            proof {
                assert(before.insert(node@) =~= before.union(set![node@]));
            }
        },
        Subject::Triple(triple) => collect_in_triple(triple, nodes),
        _ => {
            proof {
                assert(before.union(Set::<BlankNodeView>::empty()) =~= before);
            }
        },
    }
}

fn collect_in_triple(triple: &Triple, nodes: &mut Vec<BlankNode>)
    requires
        node_views(old(nodes)@).no_duplicates(),
    ensures
        node_views(final(nodes)@).no_duplicates(),
        node_views(final(nodes)@).to_set() == node_views(old(nodes)@).to_set().union(
            triple_blank_nodes(triple@),
        ),
    decreases *triple,
{
    let ghost before = node_views(nodes@).to_set();
    collect_in_subject(&triple.subject, nodes);
    collect_in_term(&triple.object, nodes);
    proof {
        assert(before.union(subject_blank_nodes(triple@.subject)).union(
            term_blank_nodes(triple@.object),
        ) =~= before.union(triple_blank_nodes(triple@)));
    }
}

/// The blank nodes of some triples, each once.
fn collect(triples: &Vec<Triple>) -> (r: Vec<BlankNode>)
    ensures
        node_views(r@).no_duplicates(),
        node_views(r@).to_set() == graph_blank_nodes(triple_views(triples@).to_set()),
{
    let mut nodes: Vec<BlankNode> = Vec::new();
    let mut i: usize = 0;
    proof {
        assert(node_views(nodes@).to_set() =~= Set::<BlankNodeView>::empty());
    }
    while i < triples.len()
        invariant
            i <= triples@.len(),
            node_views(nodes@).no_duplicates(),
            forall|node: BlankNodeView|
                #![trigger node_views(nodes@).to_set().contains(node)]
                node_views(nodes@).to_set().contains(node) <==> exists|k: int|
                    0 <= k < i && #[trigger] triple_blank_nodes(triples@[k]@).contains(node),
        decreases triples@.len() - i,
    {
        let ghost before = node_views(nodes@).to_set();
        collect_in_triple(&triples[i], &mut nodes);
        proof {
            let after = node_views(nodes@).to_set();
            assert forall|node: BlankNodeView|
                #![trigger after.contains(node)]
                after.contains(node) <==> exists|k: int|
                    0 <= k < i + 1 && #[trigger] triple_blank_nodes(triples@[k]@).contains(
                        node,
                    ) by {
                if after.contains(node) {
                    if before.contains(node) {
                        let k = choose|k: int|
                            0 <= k < i && #[trigger] triple_blank_nodes(triples@[k]@).contains(
                                node,
                            );
                        assert(triple_blank_nodes(triples@[k]@).contains(node));
                    } else {
                        assert(triple_blank_nodes(triples@[i as int]@).contains(node));
                    }
                }
                if exists|k: int|
                    0 <= k < i + 1 && #[trigger] triple_blank_nodes(triples@[k]@).contains(node) {
                    let k = choose|k: int|
                        0 <= k < i + 1 && #[trigger] triple_blank_nodes(triples@[k]@).contains(
                            node,
                        );
                    if k < i {
                        assert(before.contains(node));
                    }
                }
            }
        }
        i += 1;
    }
    proof {
        let views = triple_views(triples@);
        let found = node_views(nodes@).to_set();
        let wanted = graph_blank_nodes(views.to_set());
        assert forall|node: BlankNodeView| found.contains(node) <==> wanted.contains(node) by {
            if found.contains(node) {
                let k = choose|k: int|
                    0 <= k < triples@.len() && #[trigger] triple_blank_nodes(
                        triples@[k]@,
                    ).contains(node);
                assert(views[k] == triples@[k]@);
                assert(views.to_set().contains(views[k]));
                assert(triple_blank_nodes(views[k]).contains(node));
            }
            if wanted.contains(node) {
                let triple = choose|triple: TripleView|
                    views.to_set().contains(triple) && #[trigger] triple_blank_nodes(
                        triple,
                    ).contains(node);
                let k = choose|k: int| 0 <= k < views.len() && views[k] == triple;
                assert(triple_blank_nodes(triples@[k]@).contains(node));
            }
        }
        assert(found =~= wanted);
    }
    nodes
}

/// Some triples with what takes the place of their blank nodes.
fn rename_all(triples: &Vec<Triple>, map: &BlankNodeMap) -> (r: Vec<Triple>)
    requires
        map.wf(),
    ensures
        r@.len() == triples@.len(),
        forall|i: int|
            0 <= i < r@.len() ==> (#[trigger] r@[i])@ == renamed_triple(triples@[i]@, map@),
{
    let mut out: Vec<Triple> = Vec::new();
    let mut i: usize = 0;
    while i < triples.len()
        invariant
            i <= triples@.len(),
            map.wf(),
            out@.len() == i,
            forall|k: int|
                0 <= k < i ==> (#[trigger] out@[k])@ == renamed_triple(triples@[k]@, map@),
        decreases triples@.len() - i,
    {
        out.push(convert_triple(&triples[i], map));
        i += 1;
    }
    out
}

/// The naming that gives each of some blank nodes the blank node of a
/// number: of its rank and one.
pub open spec fn rank_names(nodes: Seq<BlankNodeView>, order: Seq<usize>) -> Map<
    BlankNodeView,
    BlankNodeView,
> {
    Map::new(
        |node: BlankNodeView| nodes.contains(node),
        |node: BlankNodeView|
            BlankNodeView::Anonymous(
                (order[choose|i: int| 0 <= i < nodes.len() && nodes[i] == node] + 1) as u128,
            ),
    )
}

/// The keys of the triples of a graph under a naming of its blank nodes.
pub open spec fn form_keys(graph: Set<TripleView>, names: Map<BlankNodeView, BlankNodeView>) -> Set<
    Seq<u8>,
> {
    Set::new(
        |key: Seq<u8>|
            exists|triple: TripleView|
                graph.contains(triple) && #[trigger] triple_key_bytes(
                    renamed_triple(triple, names),
                ) == key,
    )
}

/// The keys of some triples under a naming of their blank nodes, in their
/// order: the form of the graph under that naming.
fn form_of(triples: &Vec<Triple>, nodes: &Vec<BlankNode>, order: &Vec<usize>) -> (r: ColumnFamily)
    requires
        nodes@.len() == order@.len(),
        node_views(nodes@).no_duplicates(),
    ensures
        r.wf(),
        r@.to_set() == form_keys(
            triple_views(triples@).to_set(),
            rank_names(node_views(nodes@), order@),
        ),
        r@ == form_under(triple_views(triples@).to_set(), node_views(nodes@), order@),
{
    proof {
        assert forall|i: int, j: int| 0 <= i < j < nodes@.len() implies (#[trigger] nodes@[i])@ != (
        #[trigger] nodes@[j])@ by {
            assert(node_views(nodes@)[i] != node_views(nodes@)[j]);
        }
    }
    let map = BlankNodeMap::from_ranks(nodes, order);
    let ghost names = rank_names(node_views(nodes@), order@);
    proof {
        let views = node_views(nodes@);
        assert(map@ =~= names) by {
            assert forall|node: BlankNodeView| map@.contains_key(node) <==> names.contains_key(
                node,
            ) by {
                if map@.contains_key(node) {
                    let i = choose|i: int| 0 <= i < nodes@.len() && (#[trigger] nodes@[i])@ == node;
                    assert(views[i] == node);
                }
                if views.contains(node) {
                    let i = choose|i: int| 0 <= i < views.len() && views[i] == node;
                    assert(map@.contains_key(nodes@[i]@));
                }
            }
            assert forall|node: BlankNodeView| map@.contains_key(node) implies map@[node]
                == names[node] by {
                let i = choose|i: int| 0 <= i < nodes@.len() && (#[trigger] nodes@[i])@ == node;
                assert(views[i] == node);
                let chosen = choose|k: int| 0 <= k < views.len() && views[k] == node;
                assert(chosen == i);
                assert(map@[nodes@[i]@] == BlankNodeView::Anonymous((order@[i] + 1) as u128));
            }
        }
    }
    let renamed = rename_all(triples, &map);
    let mut form = ColumnFamily::new();
    let mut i: usize = 0;
    proof {
        assert(form@.to_set() =~= Set::<Seq<u8>>::empty());
    }
    while i < renamed.len()
        invariant
            i <= renamed@.len(),
            form.wf(),
            forall|key: Seq<u8>|
                #![trigger form@.to_set().contains(key)]
                form@.to_set().contains(key) <==> exists|k: int|
                    0 <= k < i && #[trigger] triple_key_bytes(renamed@[k]@) == key,
        decreases renamed@.len() - i,
    {
        let key = triple_key(&renamed[i]);
        let ghost before = form@;
        let added = form.insert_empty(key.as_slice());
        proof {
            if added {
                let at = choose|at: int|
                    0 <= at <= before.len() && #[trigger] before.insert(at, key@) == form@;
                lemma_insert_anywhere_to_set(before, at, key@);
            } else {
                assert(before.to_set().insert(key@) =~= before.to_set());
            }
            assert(form@.to_set() == before.to_set().insert(key@));
            assert forall|other: Seq<u8>|
                #![trigger form@.to_set().contains(other)]
                form@.to_set().contains(other) <==> exists|k: int|
                    0 <= k < i + 1 && #[trigger] triple_key_bytes(renamed@[k]@) == other by {
                if before.to_set().contains(other) {
                    let k = choose|k: int|
                        0 <= k < i && #[trigger] triple_key_bytes(renamed@[k]@) == other;
                    assert(triple_key_bytes(renamed@[k]@) == other);
                }
                if other == key@ {
                    assert(triple_key_bytes(renamed@[i as int]@) == other);
                }
                if exists|k: int|
                    0 <= k < i + 1 && #[trigger] triple_key_bytes(renamed@[k]@) == other {
                    let k = choose|k: int|
                        0 <= k < i + 1 && #[trigger] triple_key_bytes(renamed@[k]@) == other;
                    if k < i {
                        assert(before.to_set().contains(other));
                    }
                }
            }
        }
        i += 1;
    }
    proof {
        let graph = triple_views(triples@).to_set();
        let want = form_keys(graph, names);
        assert forall|key: Seq<u8>| form@.to_set().contains(key) <==> want.contains(key) by {
            if form@.to_set().contains(key) {
                let k = choose|k: int|
                    0 <= k < renamed@.len() && #[trigger] triple_key_bytes(renamed@[k]@) == key;
                let source = triple_views(triples@)[k];
                assert(triple_views(triples@).contains(source));
                assert(renamed@[k]@ == renamed_triple(source, names));
                assert(triple_key_bytes(renamed_triple(source, names)) == key);
            }
            if want.contains(key) {
                let source = choose|source: TripleView|
                    graph.contains(source) && #[trigger] triple_key_bytes(
                        renamed_triple(source, names),
                    ) == key;
                let k = choose|k: int|
                    0 <= k < triples@.len() && triple_views(triples@)[k] == source;
                assert(renamed@[k]@ == renamed_triple(triples@[k]@, names));
                assert(triple_key_bytes(renamed@[k]@) == key);
            }
        }
        assert(form@.to_set() =~= want);
        lemma_form_seq(graph, names, form@);
    }
    form
}

/// The order of the forms: by the first key in which two forms differ, and
/// a form before every form that it begins.
pub open spec fn form_lt(a: Seq<Seq<u8>>, b: Seq<Seq<u8>>) -> bool
    decreases a.len(),
{
    if b.len() == 0 {
        false
    } else if a.len() == 0 {
        true
    } else if key_lt(a[0], b[0]) {
        true
    } else if key_lt(b[0], a[0]) {
        false
    } else {
        form_lt(a.drop_first(), b.drop_first())
    }
}

/// Whether a form comes before another: by the first key in which they
/// differ, and a form before every form that it begins.
fn form_less(a: &ColumnFamily, b: &ColumnFamily) -> (r: bool)
    ensures
        r == form_lt(a@, b@),
{
    let mut i: usize = 0;
    proof {
        assert(a@.skip(0) =~= a@);
        assert(b@.skip(0) =~= b@);
    }
    while i < a.len() && i < b.len()
        invariant
            i <= a@.len(),
            i <= b@.len(),
            form_lt(a@, b@) == form_lt(a@.skip(i as int), b@.skip(i as int)),
        decreases a@.len() - i,
    {
        proof {
            assert(a@.skip(i as int)[0] == a@[i as int]);
            assert(b@.skip(i as int)[0] == b@[i as int]);
            assert(a@.skip(i as int).drop_first() =~= a@.skip(i as int + 1));
            assert(b@.skip(i as int).drop_first() =~= b@.skip(i as int + 1));
        }
        if key_less(a.key(i).as_slice(), b.key(i).as_slice()) {
            return true;
        }
        if key_less(b.key(i).as_slice(), a.key(i).as_slice()) {
            return false;
        }
        i += 1;
    }
    a.len() < b.len()
}

fn copy_order(order: &Vec<usize>) -> (r: Vec<usize>)
    ensures
        r@ == order@,
{
    let mut out: Vec<usize> = Vec::new();
    let mut i: usize = 0;
    while i < order.len()
        invariant
            i <= order@.len(),
            out@ == order@.take(i as int),
        decreases order@.len() - i,
    {
        out.push(order[i]);
        proof {
            assert(out@ =~= order@.take(i as int + 1));
        }
        i += 1;
    }
    proof {
        assert(order@.take(order@.len() as int) =~= order@);
    }
    out
}

/// The keys of a set in their order: there is one such sequence.
proof fn lemma_sorted_unique(a: Seq<Seq<u8>>, b: Seq<Seq<u8>>)
    requires
        is_sorted(a),
        is_sorted(b),
        a.to_set() == b.to_set(),
    ensures
        a == b,
    decreases a.len(),
{
    if a.len() == 0 {
        if b.len() > 0 {
            assert(b.contains(b[0]));
            assert(a.to_set().contains(b[0]));
        }
        assert(a =~= b);
    } else {
        let top = a.last();
        assert(a.contains(top));
        assert(b.to_set().contains(top));
        let j = choose|j: int| 0 <= j < b.len() && b[j] == top;
        let other = b.last();
        assert(b.contains(other));
        assert(a.to_set().contains(other));
        let i = choose|i: int| 0 <= i < a.len() && a[i] == other;
        if j < b.len() - 1 {
            assert(key_lt(b[j], b[b.len() - 1]));
            if i < a.len() - 1 {
                assert(key_lt(a[i], a[a.len() - 1]));
                lemma_key_lt_transitive(top, other, top);
            }
            lemma_key_lt_irreflexive(top);
        }
        assert(b.last() == top);
        let front_a = a.drop_last();
        let front_b = b.drop_last();
        assert(is_sorted(front_a)) by {
            assert forall|x: int, y: int| 0 <= x < y < front_a.len() implies key_lt(
                #[trigger] front_a[x],
                #[trigger] front_a[y],
            ) by {
                assert(front_a[x] == a[x] && front_a[y] == a[y]);
            }
        }
        assert(is_sorted(front_b)) by {
            assert forall|x: int, y: int| 0 <= x < y < front_b.len() implies key_lt(
                #[trigger] front_b[x],
                #[trigger] front_b[y],
            ) by {
                assert(front_b[x] == b[x] && front_b[y] == b[y]);
            }
        }
        assert forall|key: Seq<u8>| front_a.to_set().contains(key) <==> front_b.to_set().contains(
            key,
        ) by {
            lemma_key_lt_irreflexive(top);
            if front_a.contains(key) {
                let x = choose|x: int| 0 <= x < front_a.len() && front_a[x] == key;
                assert(a[x] == key);
                assert(key_lt(a[x], a[a.len() - 1]));
                assert(a.contains(key));
                assert(b.to_set().contains(key));
                let y = choose|y: int| 0 <= y < b.len() && b[y] == key;
                assert(front_b[y] == key);
            }
            if front_b.contains(key) {
                let y = choose|y: int| 0 <= y < front_b.len() && front_b[y] == key;
                assert(b[y] == key);
                assert(key_lt(b[y], b[b.len() - 1]));
                assert(b.contains(key));
                assert(a.to_set().contains(key));
                let x = choose|x: int| 0 <= x < a.len() && a[x] == key;
                assert(front_a[x] == key);
            }
        }
        assert(front_a.to_set() =~= front_b.to_set());
        lemma_sorted_unique(front_a, front_b);
        assert(a =~= front_a.push(top));
        assert(b =~= front_b.push(top));
    }
}

/// The form of a graph under a naming of its blank nodes: the keys of its
/// renamed triples, in their order.
pub open spec fn form_seq(graph: Set<TripleView>, names: Map<BlankNodeView, BlankNodeView>) -> Seq<
    Seq<u8>,
> {
    choose|form: Seq<Seq<u8>>| is_sorted(form) && form.to_set() == form_keys(graph, names)
}

/// The form of a graph under the naming of some ranks.
pub open spec fn form_under(graph: Set<TripleView>, nodes: Seq<BlankNodeView>, order: Seq<usize>) -> Seq<
    Seq<u8>,
> {
    form_seq(graph, rank_names(nodes, order))
}

/// Keys in their order that are the keys of a graph under a naming are its
/// form.
proof fn lemma_form_seq(
    graph: Set<TripleView>,
    names: Map<BlankNodeView, BlankNodeView>,
    form: Seq<Seq<u8>>,
)
    requires
        is_sorted(form),
        form.to_set() == form_keys(graph, names),
    ensures
        form_seq(graph, names) == form,
{
    lemma_sorted_unique(form_seq(graph, names), form);
}

/// No form comes before itself.
pub proof fn lemma_form_lt_irreflexive(a: Seq<Seq<u8>>)
    ensures
        !form_lt(a, a),
    decreases a.len(),
{
    if a.len() > 0 {
        lemma_key_lt_irreflexive(a[0]);
        lemma_form_lt_irreflexive(a.drop_first());
    }
}

/// Of two forms, one comes before the other or they are the same.
pub proof fn lemma_form_lt_total(a: Seq<Seq<u8>>, b: Seq<Seq<u8>>)
    ensures
        form_lt(a, b) || a == b || form_lt(b, a),
    decreases a.len(),
{
    if a.len() > 0 && b.len() > 0 {
        lemma_key_lt_total(a[0], b[0]);
        if a[0] == b[0] {
            lemma_key_lt_irreflexive(a[0]);
            lemma_form_lt_total(a.drop_first(), b.drop_first());
            if a.drop_first() == b.drop_first() {
                assert(a =~= seq![a[0]] + a.drop_first());
                assert(b =~= seq![b[0]] + b.drop_first());
            }
        }
    } else if a.len() == 0 && b.len() == 0 {
        assert(a =~= b);
    }
}

/// A form that comes before a form that comes before a third comes before
/// the third.
pub proof fn lemma_form_lt_transitive(a: Seq<Seq<u8>>, b: Seq<Seq<u8>>, c: Seq<Seq<u8>>)
    requires
        form_lt(a, b),
        form_lt(b, c),
    ensures
        form_lt(a, c),
    decreases a.len(),
{
    if a.len() > 0 && b.len() > 0 && c.len() > 0 {
        lemma_key_lt_total(a[0], c[0]);
        if key_lt(a[0], b[0]) {
            if key_lt(b[0], c[0]) {
                lemma_key_lt_transitive(a[0], b[0], c[0]);
            } else {
                lemma_key_lt_total(b[0], c[0]);
                assert(b[0] == c[0]);
            }
        } else {
            lemma_key_lt_total(a[0], b[0]);
            assert(a[0] == b[0]);
            if key_lt(b[0], c[0]) {
            } else {
                lemma_key_lt_total(b[0], c[0]);
                assert(b[0] == c[0]);
                lemma_key_lt_irreflexive(a[0]);
                lemma_form_lt_transitive(a.drop_first(), b.drop_first(), c.drop_first());
            }
        }
        if key_lt(c[0], a[0]) {
            if key_lt(a[0], b[0]) {
                lemma_key_lt_transitive(c[0], a[0], b[0]);
                lemma_key_lt_total(b[0], c[0]);
                if key_lt(b[0], c[0]) {
                    lemma_key_lt_transitive(b[0], c[0], b[0]);
                }
                lemma_key_lt_irreflexive(b[0]);
            }
            lemma_key_lt_irreflexive(c[0]);
            lemma_key_lt_irreflexive(a[0]);
        }
    }
}

/// A form that does not come before a second, which does not come before a
/// third, does not come before the third.
proof fn lemma_not_before(a: Seq<Seq<u8>>, b: Seq<Seq<u8>>, c: Seq<Seq<u8>>)
    requires
        !form_lt(a, b),
        !form_lt(b, c),
    ensures
        !form_lt(a, c),
{
    if form_lt(a, c) {
        lemma_form_lt_total(b, a);
        if form_lt(b, a) {
            lemma_form_lt_transitive(b, a, c);
        }
    }
}

/// Whether some ranks are an order of the ranks below a number: each of
/// them once.
pub open spec fn is_order(order: Seq<usize>, count: nat) -> bool {
    &&& order.len() == count
    &&& order.no_duplicates()
    &&& forall|i: int| 0 <= i < order.len() ==> #[trigger] order[i] < count
}

/// Whether some ranks are the beginning of an order of the ranks below a
/// number.
pub open spec fn is_order_start(start: Seq<usize>, count: nat) -> bool {
    &&& start.len() <= count
    &&& start.no_duplicates()
    &&& forall|i: int| 0 <= i < start.len() ==> #[trigger] start[i] < count
}

/// Whether an order begins with some ranks.
pub open spec fn begins(order: Seq<usize>, start: Seq<usize>) -> bool {
    &&& start.len() <= order.len()
    &&& forall|i: int| 0 <= i < start.len() ==> #[trigger] order[i] == start[i]
}

/// Where fewer ranks stand than there are, one is left.
proof fn lemma_rank_left(start: Seq<usize>, count: nat)
    requires
        is_order_start(start, count),
        start.len() < count,
        count <= usize::MAX,
    ensures
        exists|rank: usize| rank < count && !start.contains(rank),
    decreases count,
{
    let top = (count - 1) as usize;
    if start.contains(top) {
        let at = choose|at: int| 0 <= at < start.len() && start[at] == top;
        let rest = start.remove(at);
        assert forall|i: int| 0 <= i < rest.len() implies #[trigger] rest[i] < (count - 1) as nat by {
            let k = if i < at {
                i
            } else {
                i + 1
            };
            assert(rest[i] == start[k]);
            assert(start[k] < count);
            assert(start[k] != start[at]);
        }
        assert(rest.no_duplicates()) by {
            assert forall|i: int, j: int| 0 <= i < j < rest.len() implies rest[i] != rest[j] by {
                let a = if i < at {
                    i
                } else {
                    i + 1
                };
                let b = if j < at {
                    j
                } else {
                    j + 1
                };
                assert(rest[i] == start[a] && rest[j] == start[b]);
            }
        }
        lemma_rank_left(rest, (count - 1) as nat);
        let rank = choose|rank: usize| rank < (count - 1) as nat && !rest.contains(rank);
        if start.contains(rank) {
            let k = choose|k: int| 0 <= k < start.len() && start[k] == rank;
            assert(k != at);
            let i = if k < at {
                k
            } else {
                k - 1
            };
            assert(rest[i] == rank);
        }
        assert(rank < count && !start.contains(rank));
    } else {
        assert(top < count && !start.contains(top));
    }
}

fn holds_rank(start: &Vec<usize>, rank: usize) -> (r: bool)
    ensures
        r == start@.contains(rank),
{
    let mut i: usize = 0;
    while i < start.len()
        invariant
            i <= start@.len(),
            forall|k: int| 0 <= k < i ==> start@[k] != rank,
        decreases start@.len() - i,
    {
        if start[i] == rank {
            return true;
        }
        i += 1;
    }
    false
}

/// Among the orders of the ranks that begin with some ranks, one under
/// which the form of the graph is the least, with that form: every order
/// that begins so is tried.
fn least_naming(triples: &Vec<Triple>, nodes: &Vec<BlankNode>, start: &Vec<usize>) -> (r: (
    Vec<usize>,
    ColumnFamily,
))
    requires
        node_views(nodes@).no_duplicates(),
        is_order_start(start@, nodes@.len() as nat),
    ensures
        is_order(r.0@, nodes@.len() as nat),
        begins(r.0@, start@),
        r.1.wf(),
        r.1@ == form_under(triple_views(triples@).to_set(), node_views(nodes@), r.0@),
        r.1@.to_set() == form_keys(
            triple_views(triples@).to_set(),
            rank_names(node_views(nodes@), r.0@),
        ),
        forall|other: Seq<usize>|
            is_order(other, nodes@.len() as nat) && begins(other, start@) ==> !form_lt(
                #[trigger] form_under(
                    triple_views(triples@).to_set(),
                    node_views(nodes@),
                    other,
                ),
                r.1@,
            ),
    decreases nodes@.len() - start@.len(),
{
    let count = nodes.len();
    let ghost graph = triple_views(triples@).to_set();
    let ghost names = node_views(nodes@);
    if start.len() == count {
        let form = form_of(triples, nodes, start);
        let order = copy_order(start);
        proof {
            assert forall|other: Seq<usize>|
                is_order(other, count as nat) && begins(other, start@) implies !form_lt(
                #[trigger] form_under(graph, names, other),
                form@,
            ) by {
                assert(other =~= start@);
                lemma_form_lt_irreflexive(form@);
            }
        }
        return (order, form);
    }
    let place = start.len();
    let mut best: Option<(Vec<usize>, ColumnFamily)> = None;
    let mut rank: usize = 0;
    while rank < count
        invariant
            rank <= count,
            count == nodes@.len(),
            place == start@.len(),
            place < count,
            graph == triple_views(triples@).to_set(),
            names == node_views(nodes@),
            names.no_duplicates(),
            is_order_start(start@, count as nat),
            best is None ==> forall|below: usize| below < rank ==> start@.contains(below),
            best matches Some(found) ==> is_order(found.0@, count as nat) && begins(
                found.0@,
                start@,
            ) && found.1.wf() && found.1@ == form_under(graph, names, found.0@)
                && found.1@.to_set() == form_keys(graph, rank_names(names, found.0@)) && forall|
                other: Seq<usize>,
            |
                is_order(other, count as nat) && begins(other, start@) && other[place as int]
                    < rank ==> !form_lt(#[trigger] form_under(graph, names, other), found.1@),
        decreases count - rank,
    {
        if !holds_rank(start, rank) {
            let mut next = copy_order(start);
            next.push(rank);
            proof {
                assert forall|i: int, j: int| 0 <= i < j < next@.len() implies next@[i]
                    != next@[j] by {
                    if j == place {
                        assert(start@.contains(next@[i]));
                    }
                }
            }
            let found = least_naming(triples, nodes, &next);
            let ghost before = best;
            let better = match &best {
                None => true,
                Some(held) => form_less(&found.1, &held.1),
            };
            proof {
                assert(begins(found.0@, start@)) by {
                    assert forall|i: int| 0 <= i < start@.len() implies #[trigger] found.0@[i]
                        == start@[i] by {
                        assert(found.0@[i] == next@[i]);
                    }
                }
                assert forall|other: Seq<usize>|
                    is_order(other, count as nat) && begins(other, start@) && other[place as int]
                        < rank + 1 implies !form_lt(
                    #[trigger] form_under(graph, names, other),
                    if better {
                        found.1@
                    } else {
                        before->Some_0.1@
                    },
                ) by {
                    let form = form_under(graph, names, other);
                    if other[place as int] == rank {
                        assert(begins(other, next@)) by {
                            assert forall|i: int| 0 <= i < next@.len() implies #[trigger] other[i]
                                == next@[i] by {
                                if i < place {
                                    assert(other[i] == start@[i]);
                                }
                            }
                        }
                        assert(!form_lt(form, found.1@));
                        if !better {
                            lemma_not_before(form, found.1@, before->Some_0.1@);
                        }
                    } else {
                        assert(before is Some) by {
                            if before is None {
                                assert(start@.contains(other[place as int]));
                                let k = choose|k: int|
                                    0 <= k < start@.len() && start@[k] == other[place as int];
                                assert(other[k] == start@[k]);
                            }
                        }
                        assert(!form_lt(form, before->Some_0.1@));
                        if better {
                            if form_lt(form, found.1@) {
                                lemma_form_lt_transitive(form, found.1@, before->Some_0.1@);
                            }
                        }
                    }
                }
            }
            if better {
                best = Some(found);
            }
        } else {
            proof {
                assert forall|other: Seq<usize>|
                    is_order(other, count as nat) && begins(other, start@) implies other[place as int]
                    != rank by {
                    if other[place as int] == rank {
                        let k = choose|k: int| 0 <= k < start@.len() && start@[k] == rank;
                        assert(other[k] == start@[k]);
                    }
                }
            }
        }
        rank += 1;
    }
    match best {
        Some(found) => found,
        None => {
            proof {
                lemma_rank_left(start@, count as nat);
                let left = choose|left: usize| left < count && !start@.contains(left);
                assert(start@.contains(left));
            }
            (copy_order(start), ColumnFamily::new())
        },
    }
}

/// Whether a naming gives each of some blank nodes, and no other, a rank of
/// its own: the blank node of a number from one up to their number.
pub open spec fn is_rank_naming(
    names: Map<BlankNodeView, BlankNodeView>,
    nodes: Seq<BlankNodeView>,
) -> bool {
    &&& names.dom() == nodes.to_set()
    &&& is_renaming(names)
    &&& forall|node: BlankNodeView|
        names.contains_key(node) ==> (#[trigger] names[node] matches BlankNodeView::Anonymous(rank)
            && 1 <= rank <= nodes.len())
}

/// Whether a graph is the canonical form of another: the other under a
/// naming of its blank nodes by ranks, under which its form is the least of
/// its forms under all such namings.
pub open spec fn is_canonical_form(
    after: Set<TripleView>,
    before: Set<TripleView>,
    nodes: Seq<BlankNodeView>,
) -> bool {
    exists|names: Map<BlankNodeView, BlankNodeView>|
        #![trigger renamed_graph(before, names)]
        is_least_naming(before, nodes, names) && after == renamed_graph(before, names)
            && is_sorted(form_seq(before, names)) && form_seq(before, names).to_set()
            == form_keys(before, names)
}

/// The order of the ranks that a naming by ranks gives to some blank nodes.
pub open spec fn order_of(names: Map<BlankNodeView, BlankNodeView>, nodes: Seq<BlankNodeView>) -> Seq<
    usize,
> {
    Seq::new(
        nodes.len(),
        |i: int|
            match names[nodes[i]] {
                BlankNodeView::Anonymous(rank) => (rank - 1) as usize,
                BlankNodeView::Named(_) => 0usize,
            },
    )
}

/// A naming by ranks is the naming of the order of its ranks.
proof fn lemma_order_of(names: Map<BlankNodeView, BlankNodeView>, nodes: Seq<BlankNodeView>)
    requires
        nodes.no_duplicates(),
        nodes.len() <= CANONICALIZATION_LIMIT,
        is_rank_naming(names, nodes),
    ensures
        is_order(order_of(names, nodes), nodes.len()),
        rank_names(nodes, order_of(names, nodes)) == names,
{
    let order = order_of(names, nodes);
    assert forall|i: int| 0 <= i < nodes.len() implies names.contains_key(#[trigger] nodes[i]) by {
        assert(nodes.to_set().contains(nodes[i]));
    }
    assert forall|i: int| 0 <= i < order.len() implies #[trigger] order[i] < nodes.len() by {
        assert(names.contains_key(nodes[i]));
    }
    assert forall|i: int, j: int| 0 <= i < j < order.len() implies order[i] != order[j] by {
        assert(names.contains_key(nodes[i]) && names.contains_key(nodes[j]));
        if order[i] == order[j] {
            assert(names[nodes[i]] == names[nodes[j]]);
        }
    }
    let made = rank_names(nodes, order);
    assert forall|node: BlankNodeView| made.contains_key(node) <==> names.contains_key(node) by {
        assert(nodes.contains(node) <==> nodes.to_set().contains(node));
    }
    assert forall|node: BlankNodeView| made.contains_key(node) implies made[node]
        == names[node] by {
        let i = choose|i: int| 0 <= i < nodes.len() && nodes[i] == node;
        assert(names.contains_key(nodes[i]));
    }
    assert(made =~= names);
}

/// The naming of an order of the ranks is a naming by ranks.
proof fn lemma_rank_names(nodes: Seq<BlankNodeView>, order: Seq<usize>)
    requires
        nodes.no_duplicates(),
        is_order(order, nodes.len()),
    ensures
        is_rank_naming(rank_names(nodes, order), nodes),
{
    let names = rank_names(nodes, order);
    assert(names.dom() =~= nodes.to_set());
    assert forall|a: BlankNodeView, b: BlankNodeView|
        names.contains_key(a) && names.contains_key(b) && #[trigger] names[a]
            == #[trigger] names[b] implies a == b by {
        let i = choose|i: int| 0 <= i < nodes.len() && nodes[i] == a;
        let j = choose|j: int| 0 <= j < nodes.len() && nodes[j] == b;
        assert(order[i] == order[j]);
    }
    assert forall|node: BlankNodeView| names.contains_key(node) implies (
    #[trigger] names[node] matches BlankNodeView::Anonymous(rank) && 1 <= rank
        <= nodes.len()) by {
        let i = choose|i: int| 0 <= i < nodes.len() && nodes[i] == node;
        assert(order[i] < nodes.len());
    }
}

/// A listing of triples with what takes the place of their blank nodes,
/// one for one.
pub open spec fn renamed_listing(
    listed: Seq<TripleView>,
    names: Map<BlankNodeView, BlankNodeView>,
) -> Seq<TripleView> {
    Seq::new(listed.len(), |i: int| renamed_triple(listed[i], names))
}

impl Graph {
    /// Brings the graph into its canonical form: its blank nodes get the
    /// names, each a number of its own from one up to their number, under
    /// which the form of the graph is the least of its forms under all such
    /// namings. The graph stays as it is where it has more blank nodes than
    /// the limit.
    pub fn canonicalize(&mut self) -> (r: bool)
        requires
            old(self).wf(),
        ensures
            final(self).wf(),
            exists|nodes: Seq<BlankNodeView>|
                #![trigger nodes.to_set()]
                nodes.no_duplicates() && nodes.to_set() == graph_blank_nodes(old(self)@) && r == (
                nodes.len() <= CANONICALIZATION_LIMIT) && (r ==> is_canonical_form(
                    final(self)@,
                    old(self)@,
                    nodes,
                )),
            !r ==> final(self)@ == old(self)@,
            r ==> exists|map: Map<BlankNodeView, BlankNodeView>|
                #![trigger map.dom()]
                is_renaming(map) && map.dom() == graph_blank_nodes(old(self)@) && final(self)@
                    == renamed_graph(old(self)@, map) && final(self).listed() == renamed_listing(
                    old(self).listed(),
                    map,
                ),
            !r ==> final(self).listed() == old(self).listed(),
            r ==> forall|other: Set<TripleView>, nodes: Seq<BlankNodeView>, form: Set<TripleView>|
                isomorphic(old(self)@, other) && nodes.no_duplicates() && nodes.to_set()
                    == graph_blank_nodes(other) && #[trigger] is_canonical_form(form, other, nodes)
                    ==> final(self)@ == form,
    {
        let triples = self.triples();
        let nodes = collect(&triples);
        let ghost listed = node_views(nodes@);
        proof {
            assert(listed.to_set() == graph_blank_nodes(old(self)@));
        }
        if nodes.len() > CANONICALIZATION_LIMIT {
            return false;
        }
        let start: Vec<usize> = Vec::new();
        let (order, form) = least_naming(&triples, &nodes, &start);
        proof {
            assert forall|i: int, j: int| 0 <= i < j < nodes@.len() implies (
            #[trigger] nodes@[i])@ != (#[trigger] nodes@[j])@ by {
                assert(listed[i] != listed[j]);
            }
        }
        let map = BlankNodeMap::from_ranks(&nodes, &order);
        let renamed = rename_all(&triples, &map);
        self.clear();
        self.load(renamed);
        proof {
            let names = map@;
            let views = listed;
            assert(names =~= rank_names(listed, order@)) by {
                assert forall|node: BlankNodeView| names.contains_key(node) <==> listed.contains(
                    node,
                ) by {
                    if names.contains_key(node) {
                        let i = choose|i: int|
                            0 <= i < nodes@.len() && (#[trigger] nodes@[i])@ == node;
                        assert(views[i] == node);
                    }
                    if views.contains(node) {
                        let i = choose|i: int| 0 <= i < views.len() && views[i] == node;
                        assert(names.contains_key(nodes@[i]@));
                    }
                }
                assert forall|node: BlankNodeView| names.contains_key(node) implies names[node]
                    == rank_names(listed, order@)[node] by {
                    let i = choose|i: int|
                        0 <= i < nodes@.len() && (#[trigger] nodes@[i])@ == node;
                    assert(views[i] == node);
                    let chosen = choose|k: int| 0 <= k < views.len() && views[k] == node;
                    assert(chosen == i);
                    assert(names[nodes@[i]@] == BlankNodeView::Anonymous((order@[i] + 1) as u128));
                }
            }
            lemma_rank_names(listed, order@);
            assert(names.dom() =~= views.to_set());
            assert(form@ == form_seq(old(self)@, names));
            assert(is_sorted(form@));
            let before = triple_views(triples@);
            let after = triple_views(renamed@);
            assert(self@ =~= renamed_graph(old(self)@, names)) by {
                assert forall|triple: TripleView| self@.contains(triple) <==> renamed_graph(
                    old(self)@,
                    names,
                ).contains(triple) by {
                    if after.contains(triple) {
                        let i = choose|i: int| 0 <= i < after.len() && after[i] == triple;
                        assert(before[i] == triples@[i]@);
                        assert(before.to_set().contains(before[i]));
                        assert(renamed_triple(before[i], names) == triple);
                    }
                    if renamed_graph(old(self)@, names).contains(triple) {
                        let source = choose|source: TripleView|
                            old(self)@.contains(source) && #[trigger] renamed_triple(
                                source,
                                names,
                            ) == triple;
                        assert(before.contains(source));
                        let i = choose|i: int| 0 <= i < before.len() && before[i] == source;
                        assert(after[i] == triple);
                        assert(after.contains(triple));
                    }
                }
            }
            assert forall|other: Map<BlankNodeView, BlankNodeView>|
                is_rank_naming(other, listed) implies !form_lt(
                #[trigger] form_seq(old(self)@, other),
                form_seq(old(self)@, names),
            ) by {
                lemma_order_of(other, listed);
                let tried = order_of(other, listed);
                assert(begins(tried, start@));
                assert(form_under(old(self)@, listed, tried) == form_seq(old(self)@, other));
            }
            assert(is_least_naming(old(self)@, listed, names));
            assert(is_canonical_form(self@, old(self)@, listed));
            assert(after =~= renamed_listing(before, names));
            assert(before == old(self).listed());
            assert(after.no_duplicates()) by {
                assert forall|i: int, j: int| 0 <= i < j < after.len() implies after[i]
                    != after[j] by {
                    old(self).lemma_listed();
                    assert(before.to_set().contains(before[i]));
                    assert(before.to_set().contains(before[j]));
                    if after[i] == after[j] {
                        lemma_renaming_tells_apart(old(self)@, names, before[i], before[j]);
                    }
                }
            }
            lemma_listed_with_all(after);
            assert forall|other: Set<TripleView>, others: Seq<BlankNodeView>, form: Set<TripleView>|
                isomorphic(old(self)@, other) && others.no_duplicates() && others.to_set()
                    == graph_blank_nodes(other) && #[trigger] is_canonical_form(
                    form,
                    other,
                    others,
                ) implies self@ == form by {
                lemma_isomorphic_graphs_have_one_canonical_form(
                    old(self)@,
                    other,
                    listed,
                    others,
                    self@,
                    form,
                );
            }
        }
        true
    }
}

/// Whether two graphs are the same but for the names of their blank nodes:
/// a naming of the blank nodes of the first, which gives no name twice,
/// makes it the second.
pub open spec fn isomorphic(first: Set<TripleView>, second: Set<TripleView>) -> bool {
    exists|map: Map<BlankNodeView, BlankNodeView>|
        #![trigger map.dom()]
        is_renaming(map) && map.dom() == graph_blank_nodes(first) && renamed_graph(first, map)
            == second
}

/// A naming after another: each blank node of the first gets what the
/// second gives to its name.
pub open spec fn composed(
    first: Map<BlankNodeView, BlankNodeView>,
    second: Map<BlankNodeView, BlankNodeView>,
) -> Map<BlankNodeView, BlankNodeView> {
    Map::new(
        |node: BlankNodeView| first.contains_key(node),
        |node: BlankNodeView|
            if second.contains_key(first[node]) {
                second[first[node]]
            } else {
                first[node]
            },
    )
}

/// The naming that takes each name back to the blank node that has it.
pub open spec fn inverse(map: Map<BlankNodeView, BlankNodeView>) -> Map<
    BlankNodeView,
    BlankNodeView,
> {
    Map::new(
        |name: BlankNodeView|
            exists|node: BlankNodeView| map.contains_key(node) && #[trigger] map[node] == name,
        |name: BlankNodeView|
            choose|node: BlankNodeView| map.contains_key(node) && #[trigger] map[node] == name,
    )
}

proof fn lemma_inverse(map: Map<BlankNodeView, BlankNodeView>, node: BlankNodeView)
    requires
        is_renaming(map),
        map.contains_key(node),
    ensures
        inverse(map).contains_key(map[node]),
        inverse(map)[map[node]] == node,
{
    let back = inverse(map)[map[node]];
    assert(map.contains_key(back) && map[back] == map[node]);
}

/// Renaming twice is renaming once by the one naming after the other.
proof fn lemma_renamed_twice_term(
    term: TermView,
    first: Map<BlankNodeView, BlankNodeView>,
    second: Map<BlankNodeView, BlankNodeView>,
)
    requires
        term_blank_nodes(term).subset_of(first.dom()),
    ensures
        renamed_term(
            renamed_term(term, first),
            second,
        ) == renamed_term(term, composed(first, second)),
    decreases term,
{
    match term {
        TermView::BlankNode(node) => {
            assert(term_blank_nodes(term).contains(node));
        },
        TermView::Triple(triple) => lemma_renamed_twice_triple(*triple, first, second),
        _ => {},
    }
}

proof fn lemma_renamed_twice_subject(
    subject: SubjectView,
    first: Map<BlankNodeView, BlankNodeView>,
    second: Map<BlankNodeView, BlankNodeView>,
)
    requires
        subject_blank_nodes(subject).subset_of(first.dom()),
    ensures
        renamed_subject(
            renamed_subject(subject, first),
            second,
        ) == renamed_subject(subject, composed(first, second)),
    decreases subject,
{
    match subject {
        SubjectView::BlankNode(node) => {
            assert(subject_blank_nodes(subject).contains(node));
        },
        SubjectView::Triple(triple) => lemma_renamed_twice_triple(*triple, first, second),
        _ => {},
    }
}

proof fn lemma_renamed_twice_triple(
    triple: TripleView,
    first: Map<BlankNodeView, BlankNodeView>,
    second: Map<BlankNodeView, BlankNodeView>,
)
    requires
        triple_blank_nodes(triple).subset_of(first.dom()),
    ensures
        renamed_triple(renamed_triple(triple, first), second) == renamed_triple(
            triple,
            composed(first, second),
        ),
    decreases triple,
{
    assert forall|node: BlankNodeView|
        subject_blank_nodes(triple.subject).contains(node) implies first.dom().contains(node) by {
        assert(triple_blank_nodes(triple).contains(node));
    }
    assert forall|node: BlankNodeView|
        term_blank_nodes(triple.object).contains(node) implies first.dom().contains(node) by {
        assert(triple_blank_nodes(triple).contains(node));
    }
    lemma_renamed_twice_subject(triple.subject, first, second);
    lemma_renamed_twice_term(triple.object, first, second);
}

/// A naming that gives each blank node of a term its own name changes
/// nothing.
proof fn lemma_renamed_same_term(term: TermView, map: Map<BlankNodeView, BlankNodeView>)
    requires
        forall|node: BlankNodeView|
            term_blank_nodes(term).contains(node) && map.contains_key(node) ==> #[trigger] map[node]
                == node,
    ensures
        renamed_term(term, map) == term,
    decreases term,
{
    match term {
        TermView::BlankNode(node) => {
            assert(term_blank_nodes(term).contains(node));
        },
        TermView::Triple(triple) => lemma_renamed_same_triple(*triple, map),
        _ => {},
    }
}

proof fn lemma_renamed_same_subject(subject: SubjectView, map: Map<BlankNodeView, BlankNodeView>)
    requires
        forall|node: BlankNodeView|
            subject_blank_nodes(subject).contains(node) && map.contains_key(node)
                ==> #[trigger] map[node] == node,
    ensures
        renamed_subject(subject, map) == subject,
    decreases subject,
{
    match subject {
        SubjectView::BlankNode(node) => {
            assert(subject_blank_nodes(subject).contains(node));
        },
        SubjectView::Triple(triple) => lemma_renamed_same_triple(*triple, map),
        _ => {},
    }
}

proof fn lemma_renamed_same_triple(triple: TripleView, map: Map<BlankNodeView, BlankNodeView>)
    requires
        forall|node: BlankNodeView|
            triple_blank_nodes(triple).contains(node) && map.contains_key(node)
                ==> #[trigger] map[node] == node,
    ensures
        renamed_triple(triple, map) == triple,
    decreases triple,
{
    assert forall|node: BlankNodeView|
        subject_blank_nodes(triple.subject).contains(node) && map.contains_key(
            node,
        ) implies #[trigger] map[node] == node by {
        assert(triple_blank_nodes(triple).contains(node));
    }
    assert forall|node: BlankNodeView|
        term_blank_nodes(triple.object).contains(node) && map.contains_key(
            node,
        ) implies #[trigger] map[node] == node by {
        assert(triple_blank_nodes(triple).contains(node));
    }
    lemma_renamed_same_subject(triple.subject, map);
    lemma_renamed_same_term(triple.object, map);
}

/// The blank nodes of a renamed term are the names of the blank nodes of
/// the term.
proof fn lemma_names_term(term: TermView, map: Map<BlankNodeView, BlankNodeView>)
    requires
        term_blank_nodes(term).subset_of(map.dom()),
    ensures
        forall|node: BlankNodeView|
            term_blank_nodes(term).contains(node) ==> term_blank_nodes(
                renamed_term(term, map),
            ).contains(#[trigger] map[node]),
        forall|name: BlankNodeView|
            #![trigger term_blank_nodes(renamed_term(term, map)).contains(name)]
            term_blank_nodes(renamed_term(term, map)).contains(name)
                ==> exists|node: BlankNodeView|
                term_blank_nodes(term).contains(node) && #[trigger] map[node] == name,
    decreases term,
{
    let renamed = renamed_term(term, map);
    match term {
        TermView::BlankNode(node) => {
            assert(term_blank_nodes(term).contains(node));
            assert forall|name: BlankNodeView|
                #![trigger term_blank_nodes(renamed).contains(name)]
                term_blank_nodes(renamed).contains(name) implies exists|found: BlankNodeView|
                    term_blank_nodes(term).contains(found) && #[trigger] map[found] == name by {
                assert(map[node] == name);
            }
        },
        TermView::Triple(triple) => {
            lemma_names_triple(*triple, map);
            assert forall|name: BlankNodeView|
                #![trigger term_blank_nodes(renamed).contains(name)]
                term_blank_nodes(renamed).contains(name) implies exists|found: BlankNodeView|
                    term_blank_nodes(term).contains(found) && #[trigger] map[found] == name by {
                assert(triple_blank_nodes(renamed_triple(*triple, map)).contains(name));
            }
        },
        _ => {},
    }
}

proof fn lemma_names_subject(subject: SubjectView, map: Map<BlankNodeView, BlankNodeView>)
    requires
        subject_blank_nodes(subject).subset_of(map.dom()),
    ensures
        forall|node: BlankNodeView|
            subject_blank_nodes(subject).contains(node) ==> subject_blank_nodes(
                renamed_subject(subject, map),
            ).contains(#[trigger] map[node]),
        forall|name: BlankNodeView|
            #![trigger subject_blank_nodes(renamed_subject(subject, map)).contains(name)]
            subject_blank_nodes(
                renamed_subject(subject, map),
            ).contains(name) ==> exists|node: BlankNodeView|
                subject_blank_nodes(subject).contains(node) && #[trigger] map[node] == name,
    decreases subject,
{
    let renamed = renamed_subject(subject, map);
    match subject {
        SubjectView::BlankNode(node) => {
            assert(subject_blank_nodes(subject).contains(node));
            assert forall|name: BlankNodeView|
                #![trigger subject_blank_nodes(renamed).contains(name)]
                subject_blank_nodes(renamed).contains(name) implies exists|found: BlankNodeView|
                    subject_blank_nodes(subject).contains(found) && #[trigger] map[found]
                        == name by {
                assert(map[node] == name);
            }
        },
        SubjectView::Triple(triple) => {
            lemma_names_triple(*triple, map);
            assert forall|name: BlankNodeView|
                #![trigger subject_blank_nodes(renamed).contains(name)]
                subject_blank_nodes(renamed).contains(name) implies exists|found: BlankNodeView|
                    subject_blank_nodes(subject).contains(found) && #[trigger] map[found]
                        == name by {
                assert(triple_blank_nodes(renamed_triple(*triple, map)).contains(name));
            }
        },
        _ => {},
    }
}

proof fn lemma_names_triple(triple: TripleView, map: Map<BlankNodeView, BlankNodeView>)
    requires
        triple_blank_nodes(triple).subset_of(map.dom()),
    ensures
        forall|node: BlankNodeView|
            triple_blank_nodes(triple).contains(node) ==> triple_blank_nodes(
                renamed_triple(triple, map),
            ).contains(#[trigger] map[node]),
        forall|name: BlankNodeView|
            #![trigger triple_blank_nodes(renamed_triple(triple, map)).contains(name)]
            triple_blank_nodes(renamed_triple(triple, map)).contains(name) ==> exists|
                node: BlankNodeView,
            |
                triple_blank_nodes(triple).contains(node) && #[trigger] map[node] == name,
    decreases triple,
{
    assert forall|node: BlankNodeView|
        subject_blank_nodes(triple.subject).contains(node) implies map.dom().contains(node) by {
        assert(triple_blank_nodes(triple).contains(node));
    }
    assert forall|node: BlankNodeView|
        term_blank_nodes(triple.object).contains(node) implies map.dom().contains(node) by {
        assert(triple_blank_nodes(triple).contains(node));
    }
    lemma_names_subject(triple.subject, map);
    lemma_names_term(triple.object, map);
    let renamed = renamed_triple(triple, map);
    assert forall|name: BlankNodeView|
        #![trigger triple_blank_nodes(renamed).contains(name)]
        triple_blank_nodes(renamed).contains(name) implies exists|node: BlankNodeView|
            triple_blank_nodes(triple).contains(node) && #[trigger] map[node] == name by {
        let subject = renamed_subject(triple.subject, map);
        let object = renamed_term(triple.object, map);
        assert(renamed.subject == subject && renamed.object == object);
        if subject_blank_nodes(subject).contains(name) {
            let node = choose|node: BlankNodeView|
                subject_blank_nodes(triple.subject).contains(node) && #[trigger] map[node]
                    == name;
            assert(triple_blank_nodes(triple).contains(node));
        } else {
            assert(term_blank_nodes(object).contains(name));
            let node = choose|node: BlankNodeView|
                term_blank_nodes(triple.object).contains(node) && #[trigger] map[node] == name;
            assert(triple_blank_nodes(triple).contains(node));
        }
    }
}

/// A triple of a graph, under a naming after which the graph has the form
/// of another graph under a naming of its own, is a triple of the other
/// graph once the names are taken back.
proof fn lemma_taken_back(
    first: Set<TripleView>,
    second: Set<TripleView>,
    first_names: Map<BlankNodeView, BlankNodeView>,
    second_names: Map<BlankNodeView, BlankNodeView>,
    triple: TripleView,
    other: TripleView,
)
    requires
        is_renaming(second_names),
        first_names.dom() == graph_blank_nodes(first),
        second_names.dom() == graph_blank_nodes(second),
        first.contains(triple),
        second.contains(other),
        renamed_triple(triple, first_names) == renamed_triple(other, second_names),
    ensures
        renamed_triple(triple, composed(first_names, inverse(second_names))) == other,
{
    let back = inverse(second_names);
    assert(triple_blank_nodes(triple).subset_of(first_names.dom())) by {
        assert forall|node: BlankNodeView|
            triple_blank_nodes(triple).contains(node) implies first_names.dom().contains(
            node,
        ) by {
            assert(graph_blank_nodes(first).contains(node));
        }
    }
    assert(triple_blank_nodes(other).subset_of(second_names.dom())) by {
        assert forall|node: BlankNodeView|
            triple_blank_nodes(other).contains(node) implies second_names.dom().contains(
            node,
        ) by {
            assert(graph_blank_nodes(second).contains(node));
        }
    }
    lemma_renamed_twice_triple(triple, first_names, back);
    lemma_renamed_twice_triple(other, second_names, back);
    let round = composed(second_names, back);
    assert forall|node: BlankNodeView|
        triple_blank_nodes(other).contains(node) && round.contains_key(
            node,
        ) implies #[trigger] round[node] == node by {
        lemma_inverse(second_names, node);
    }
    lemma_renamed_same_triple(other, round);
}

/// A naming of the blank nodes of a graph which gives no name twice makes
/// no two triples of the graph one.
proof fn lemma_renaming_tells_apart(
    graph: Set<TripleView>,
    names: Map<BlankNodeView, BlankNodeView>,
    a: TripleView,
    b: TripleView,
)
    requires
        is_renaming(names),
        names.dom() == graph_blank_nodes(graph),
        graph.contains(a),
        graph.contains(b),
        renamed_triple(a, names) == renamed_triple(b, names),
    ensures
        a == b,
{
    lemma_taken_back(graph, graph, names, names, a, b);
    lemma_taken_back(graph, graph, names, names, a, a);
}

/// Two graphs that have the same form, each under a naming of its blank
/// nodes which gives no name twice, are the same but for the names of their
/// blank nodes. So two graphs that the canonical form makes equal are
/// isomorphic.
pub proof fn lemma_same_form_is_isomorphic(
    first: Set<TripleView>,
    second: Set<TripleView>,
    first_names: Map<BlankNodeView, BlankNodeView>,
    second_names: Map<BlankNodeView, BlankNodeView>,
)
    requires
        is_renaming(first_names),
        is_renaming(second_names),
        first_names.dom() == graph_blank_nodes(first),
        second_names.dom() == graph_blank_nodes(second),
        renamed_graph(first, first_names) == renamed_graph(second, second_names),
    ensures
        isomorphic(first, second),
{
    let back = inverse(second_names);
    let map = composed(first_names, back);
    let form = renamed_graph(first, first_names);
    assert(map.dom() =~= graph_blank_nodes(first));
    assert(renamed_graph(first, map) =~= second) by {
        assert forall|triple: TripleView| renamed_graph(first, map).contains(triple)
            <==> second.contains(triple) by {
            if renamed_graph(first, map).contains(triple) {
                let source = choose|source: TripleView|
                    first.contains(source) && #[trigger] renamed_triple(source, map) == triple;
                let shown = renamed_triple(source, first_names);
                assert(form.contains(shown));
                assert(renamed_graph(second, second_names).contains(shown));
                let other = choose|other: TripleView|
                    second.contains(other) && #[trigger] renamed_triple(other, second_names)
                        == shown;
                lemma_taken_back(first, second, first_names, second_names, source, other);
            }
            if second.contains(triple) {
                let shown = renamed_triple(triple, second_names);
                assert(renamed_graph(second, second_names).contains(shown));
                assert(form.contains(shown));
                let source = choose|source: TripleView|
                    first.contains(source) && #[trigger] renamed_triple(source, first_names)
                        == shown;
                lemma_taken_back(first, second, first_names, second_names, source, triple);
                assert(renamed_triple(source, map) == triple);
            }
        }
    }
    assert(is_renaming(map)) by {
        assert forall|a: BlankNodeView, b: BlankNodeView|
            map.contains_key(a) && map.contains_key(b) && #[trigger] map[a]
                == #[trigger] map[b] implies a == b by {
            lemma_name_is_taken_back(first, second, first_names, second_names, a);
            lemma_name_is_taken_back(first, second, first_names, second_names, b);
        }
    }
}

/// The name of a blank node of a graph, in a form that another graph has
/// too, is the name of a blank node of the other graph.
proof fn lemma_name_is_taken_back(
    first: Set<TripleView>,
    second: Set<TripleView>,
    first_names: Map<BlankNodeView, BlankNodeView>,
    second_names: Map<BlankNodeView, BlankNodeView>,
    node: BlankNodeView,
)
    requires
        first_names.dom() == graph_blank_nodes(first),
        second_names.dom() == graph_blank_nodes(second),
        renamed_graph(first, first_names) == renamed_graph(second, second_names),
        first_names.contains_key(node),
    ensures
        inverse(second_names).contains_key(first_names[node]),
        second_names.contains_key(inverse(second_names)[first_names[node]]),
        second_names[inverse(second_names)[first_names[node]]] == first_names[node],
{
    assert(graph_blank_nodes(first).contains(node));
    let triple = choose|triple: TripleView|
        first.contains(triple) && #[trigger] triple_blank_nodes(triple).contains(node);
    assert(triple_blank_nodes(triple).subset_of(first_names.dom())) by {
        assert forall|other: BlankNodeView|
            triple_blank_nodes(triple).contains(other) implies first_names.dom().contains(
            other,
        ) by {
            assert(graph_blank_nodes(first).contains(other));
        }
    }
    lemma_names_triple(triple, first_names);
    let shown = renamed_triple(triple, first_names);
    assert(triple_blank_nodes(shown).contains(first_names[node]));
    assert(renamed_graph(first, first_names).contains(shown));
    assert(renamed_graph(second, second_names).contains(shown));
    let other = choose|other: TripleView|
        second.contains(other) && #[trigger] renamed_triple(other, second_names) == shown;
    assert(triple_blank_nodes(other).subset_of(second_names.dom())) by {
        assert forall|found: BlankNodeView|
            triple_blank_nodes(other).contains(found) implies second_names.dom().contains(
            found,
        ) by {
            assert(graph_blank_nodes(second).contains(found));
        }
    }
    lemma_names_triple(other, second_names);
    assert(triple_blank_nodes(renamed_triple(other, second_names)).contains(first_names[node]));
    let found = choose|found: BlankNodeView|
        triple_blank_nodes(other).contains(found) && #[trigger] second_names[found]
            == first_names[node];
    assert(second_names.dom().contains(found));
    assert(second_names.contains_key(found) && second_names[found] == first_names[node]);
}

/// The blank nodes of a renamed graph are the names of the blank nodes of
/// the graph.
proof fn lemma_names_of_graph(graph: Set<TripleView>, way: Map<BlankNodeView, BlankNodeView>)
    requires
        way.dom() == graph_blank_nodes(graph),
    ensures
        forall|name: BlankNodeView|
            #![trigger graph_blank_nodes(renamed_graph(graph, way)).contains(name)]
            graph_blank_nodes(renamed_graph(graph, way)).contains(name) <==> exists|
                node: BlankNodeView,
            |
                way.contains_key(node) && #[trigger] way[node] == name,
{
    let renamed = renamed_graph(graph, way);
    assert forall|name: BlankNodeView|
        #![trigger graph_blank_nodes(renamed).contains(name)]
        graph_blank_nodes(renamed).contains(name) <==> exists|node: BlankNodeView|
            way.contains_key(node) && #[trigger] way[node] == name by {
        if graph_blank_nodes(renamed).contains(name) {
            let shown = choose|shown: TripleView|
                renamed.contains(shown) && #[trigger] triple_blank_nodes(shown).contains(name);
            let source = choose|source: TripleView|
                graph.contains(source) && #[trigger] renamed_triple(source, way) == shown;
            lemma_triple_in_graph(graph, source);
            lemma_names_triple(source, way);
            assert(triple_blank_nodes(renamed_triple(source, way)).contains(name));
            let node = choose|node: BlankNodeView|
                triple_blank_nodes(source).contains(node) && #[trigger] way[node] == name;
            assert(graph_blank_nodes(graph).contains(node));
            assert(way.contains_key(node) && way[node] == name);
        }
        if exists|node: BlankNodeView| way.contains_key(node) && #[trigger] way[node] == name {
            let node = choose|node: BlankNodeView|
                way.contains_key(node) && #[trigger] way[node] == name;
            assert(graph_blank_nodes(graph).contains(node));
            let source = choose|source: TripleView|
                graph.contains(source) && #[trigger] triple_blank_nodes(source).contains(node);
            lemma_triple_in_graph(graph, source);
            lemma_names_triple(source, way);
            let shown = renamed_triple(source, way);
            assert(renamed.contains(shown));
            assert(triple_blank_nodes(shown).contains(way[node]));
        }
    }
}

/// The blank nodes of a triple of a graph are blank nodes of the graph.
proof fn lemma_triple_in_graph(graph: Set<TripleView>, triple: TripleView)
    requires
        graph.contains(triple),
    ensures
        triple_blank_nodes(triple).subset_of(graph_blank_nodes(graph)),
{
    assert forall|node: BlankNodeView|
        triple_blank_nodes(triple).contains(node) implies graph_blank_nodes(graph).contains(
        node,
    ) by {}
}

/// Two graphs of which one is the other renamed have as many blank nodes.
proof fn lemma_same_count(
    first: Set<TripleView>,
    first_nodes: Seq<BlankNodeView>,
    second_nodes: Seq<BlankNodeView>,
    way: Map<BlankNodeView, BlankNodeView>,
)
    requires
        first_nodes.no_duplicates(),
        second_nodes.no_duplicates(),
        first_nodes.to_set() == graph_blank_nodes(first),
        second_nodes.to_set() == graph_blank_nodes(renamed_graph(first, way)),
        is_renaming(way),
        way.dom() == graph_blank_nodes(first),
    ensures
        first_nodes.len() == second_nodes.len(),
{
    let carried = Seq::new(first_nodes.len(), |i: int| way[first_nodes[i]]);
    assert forall|i: int| 0 <= i < first_nodes.len() implies way.contains_key(
        #[trigger] first_nodes[i],
    ) by {
        assert(first_nodes.to_set().contains(first_nodes[i]));
    }
    assert(carried.no_duplicates()) by {
        assert forall|i: int, j: int| 0 <= i < j < carried.len() implies carried[i]
            != carried[j] by {
            assert(way.contains_key(first_nodes[i]) && way.contains_key(first_nodes[j]));
            if carried[i] == carried[j] {
                assert(way[first_nodes[i]] == way[first_nodes[j]]);
            }
        }
    }
    lemma_names_of_graph(first, way);
    assert(carried.to_set() =~= second_nodes.to_set()) by {
        assert forall|name: BlankNodeView| carried.to_set().contains(name)
            <==> second_nodes.to_set().contains(name) by {
            if carried.contains(name) {
                let i = choose|i: int| 0 <= i < carried.len() && carried[i] == name;
                assert(way.contains_key(first_nodes[i]) && way[first_nodes[i]] == name);
                assert(graph_blank_nodes(renamed_graph(first, way)).contains(name));
            }
            if second_nodes.to_set().contains(name) {
                assert(graph_blank_nodes(renamed_graph(first, way)).contains(name));
                let node = choose|node: BlankNodeView|
                    way.contains_key(node) && #[trigger] way[node] == name;
                assert(first_nodes.to_set().contains(node));
                let i = choose|i: int| 0 <= i < first_nodes.len() && first_nodes[i] == node;
                assert(carried[i] == name);
            }
        }
    }
    carried.unique_seq_to_set();
    second_nodes.unique_seq_to_set();
}

/// A naming by ranks of a renamed graph, taken after the renaming, is a
/// naming by ranks of the graph, and gives the same graph.
proof fn lemma_carried_naming(
    first: Set<TripleView>,
    first_nodes: Seq<BlankNodeView>,
    second_nodes: Seq<BlankNodeView>,
    way: Map<BlankNodeView, BlankNodeView>,
    names: Map<BlankNodeView, BlankNodeView>,
)
    requires
        first_nodes.no_duplicates(),
        second_nodes.no_duplicates(),
        first_nodes.to_set() == graph_blank_nodes(first),
        second_nodes.to_set() == graph_blank_nodes(renamed_graph(first, way)),
        is_renaming(way),
        way.dom() == graph_blank_nodes(first),
        is_rank_naming(names, second_nodes),
    ensures
        is_rank_naming(composed(way, names), first_nodes),
        renamed_graph(first, composed(way, names)) == renamed_graph(
            renamed_graph(first, way),
            names,
        ),
{
    let second = renamed_graph(first, way);
    let both = composed(way, names);
    lemma_same_count(first, first_nodes, second_nodes, way);
    lemma_names_of_graph(first, way);
    assert forall|node: BlankNodeView| way.contains_key(node) implies names.contains_key(
        #[trigger] way[node],
    ) by {
        assert(graph_blank_nodes(second).contains(way[node]));
        assert(second_nodes.to_set().contains(way[node]));
    }
    assert(both.dom() =~= first_nodes.to_set());
    assert forall|a: BlankNodeView, b: BlankNodeView|
        both.contains_key(a) && both.contains_key(b) && #[trigger] both[a]
            == #[trigger] both[b] implies a == b by {
        assert(names.contains_key(way[a]) && names.contains_key(way[b]));
        assert(names[way[a]] == names[way[b]]);
        assert(way[a] == way[b]);
    }
    assert forall|node: BlankNodeView| both.contains_key(node) implies (
    #[trigger] both[node] matches BlankNodeView::Anonymous(rank) && 1 <= rank
        <= first_nodes.len()) by {
        assert(names.contains_key(way[node]));
        assert(both[node] == names[way[node]]);
    }
    assert(renamed_graph(first, both) =~= renamed_graph(second, names)) by {
        assert forall|triple: TripleView| renamed_graph(first, both).contains(triple)
            <==> renamed_graph(second, names).contains(triple) by {
            if renamed_graph(first, both).contains(triple) {
                let source = choose|source: TripleView|
                    first.contains(source) && #[trigger] renamed_triple(source, both) == triple;
                lemma_triple_in_graph(first, source);
                lemma_renamed_twice_triple(source, way, names);
                let middle = renamed_triple(source, way);
                assert(second.contains(middle));
                assert(renamed_triple(middle, names) == triple);
            }
            if renamed_graph(second, names).contains(triple) {
                let middle = choose|middle: TripleView|
                    second.contains(middle) && #[trigger] renamed_triple(middle, names)
                        == triple;
                let source = choose|source: TripleView|
                    first.contains(source) && #[trigger] renamed_triple(source, way) == middle;
                lemma_triple_in_graph(first, source);
                lemma_renamed_twice_triple(source, way, names);
                assert(renamed_triple(source, both) == triple);
            }
        }
    }
}

/// Whether a naming by ranks is one under which the form of a graph is the
/// least of its forms under all such namings, and that form is the keys of
/// the renamed graph in their order.
pub open spec fn is_least_naming(
    graph: Set<TripleView>,
    nodes: Seq<BlankNodeView>,
    names: Map<BlankNodeView, BlankNodeView>,
) -> bool {
    &&& is_rank_naming(names, nodes)
    &&& forall|other: Map<BlankNodeView, BlankNodeView>|
        is_rank_naming(other, nodes) ==> !form_lt(
            #[trigger] form_seq(graph, other),
            form_seq(graph, names),
        )
}

/// The least form of a graph does not come behind a form of a graph that
/// is the same but for the names of its blank nodes.
proof fn lemma_least_form_not_behind(
    first: Set<TripleView>,
    first_nodes: Seq<BlankNodeView>,
    second_nodes: Seq<BlankNodeView>,
    way: Map<BlankNodeView, BlankNodeView>,
    least: Map<BlankNodeView, BlankNodeView>,
    names: Map<BlankNodeView, BlankNodeView>,
)
    requires
        first_nodes.no_duplicates(),
        second_nodes.no_duplicates(),
        first_nodes.to_set() == graph_blank_nodes(first),
        second_nodes.to_set() == graph_blank_nodes(renamed_graph(first, way)),
        is_renaming(way),
        way.dom() == graph_blank_nodes(first),
        is_least_naming(first, first_nodes, least),
        is_rank_naming(names, second_nodes),
    ensures
        !form_lt(form_seq(renamed_graph(first, way), names), form_seq(first, least)),
{
    lemma_carried_naming(first, first_nodes, second_nodes, way, names);
    let both = composed(way, names);
    let second = renamed_graph(first, way);
    assert(form_keys(first, both) =~= form_keys(second, names)) by {
        assert forall|key: Seq<u8>| form_keys(first, both).contains(key) <==> form_keys(
            second,
            names,
        ).contains(key) by {
            if form_keys(first, both).contains(key) {
                let source = choose|source: TripleView|
                    first.contains(source) && #[trigger] triple_key_bytes(
                        renamed_triple(source, both),
                    ) == key;
                lemma_triple_in_graph(first, source);
                lemma_renamed_twice_triple(source, way, names);
                let middle = renamed_triple(source, way);
                assert(second.contains(middle));
                assert(triple_key_bytes(renamed_triple(middle, names)) == key);
            }
            if form_keys(second, names).contains(key) {
                let middle = choose|middle: TripleView|
                    second.contains(middle) && #[trigger] triple_key_bytes(
                        renamed_triple(middle, names),
                    ) == key;
                let source = choose|source: TripleView|
                    first.contains(source) && #[trigger] renamed_triple(source, way) == middle;
                lemma_triple_in_graph(first, source);
                lemma_renamed_twice_triple(source, way, names);
                assert(triple_key_bytes(renamed_triple(source, both)) == key);
            }
        }
    }
    assert(form_seq(first, both) == form_seq(second, names));
}

/// Two graphs that are the same but for the names of their blank nodes have
/// the same least form: the canonical form of a graph does not depend on
/// the names of its blank nodes.
pub proof fn lemma_isomorphic_graphs_have_one_form(
    first: Set<TripleView>,
    second: Set<TripleView>,
    first_nodes: Seq<BlankNodeView>,
    second_nodes: Seq<BlankNodeView>,
    first_names: Map<BlankNodeView, BlankNodeView>,
    second_names: Map<BlankNodeView, BlankNodeView>,
)
    requires
        isomorphic(first, second),
        first_nodes.no_duplicates(),
        second_nodes.no_duplicates(),
        first_nodes.to_set() == graph_blank_nodes(first),
        second_nodes.to_set() == graph_blank_nodes(second),
        is_least_naming(first, first_nodes, first_names),
        is_least_naming(second, second_nodes, second_names),
    ensures
        form_seq(first, first_names) == form_seq(second, second_names),
{
    let way = choose|way: Map<BlankNodeView, BlankNodeView>|
        #![trigger way.dom()]
        is_renaming(way) && way.dom() == graph_blank_nodes(first) && renamed_graph(first, way)
            == second;
    lemma_least_form_not_behind(first, first_nodes, second_nodes, way, first_names, second_names);
    let same = Map::new(
        |node: BlankNodeView| graph_blank_nodes(second).contains(node),
        |node: BlankNodeView| node,
    );
    assert(renamed_graph(second, same) =~= second) by {
        assert forall|triple: TripleView| renamed_graph(second, same).contains(triple)
            <==> second.contains(triple) by {
            if renamed_graph(second, same).contains(triple) {
                let source = choose|source: TripleView|
                    second.contains(source) && #[trigger] renamed_triple(source, same)
                        == triple;
                lemma_renamed_same_triple(source, same);
            }
            if second.contains(triple) {
                lemma_renamed_same_triple(triple, same);
                assert(renamed_triple(triple, same) == triple);
            }
        }
    }
    assert(same.dom() =~= graph_blank_nodes(second));
    lemma_same_form_is_isomorphic(second, first, same, way);
    let back = choose|back: Map<BlankNodeView, BlankNodeView>|
        #![trigger back.dom()]
        is_renaming(back) && back.dom() == graph_blank_nodes(second) && renamed_graph(
            second,
            back,
        ) == first;
    lemma_least_form_not_behind(second, second_nodes, first_nodes, back, second_names, first_names);
    lemma_form_lt_total(form_seq(first, first_names), form_seq(second, second_names));
}

/// Two graphs that are the same but for the names of their blank nodes have
/// the same canonical form.
pub proof fn lemma_isomorphic_graphs_have_one_canonical_form(
    first: Set<TripleView>,
    second: Set<TripleView>,
    first_nodes: Seq<BlankNodeView>,
    second_nodes: Seq<BlankNodeView>,
    first_form: Set<TripleView>,
    second_form: Set<TripleView>,
)
    requires
        isomorphic(first, second),
        first_nodes.no_duplicates(),
        second_nodes.no_duplicates(),
        first_nodes.to_set() == graph_blank_nodes(first),
        second_nodes.to_set() == graph_blank_nodes(second),
        is_canonical_form(first_form, first, first_nodes),
        is_canonical_form(second_form, second, second_nodes),
    ensures
        first_form == second_form,
{
    let first_names = choose|names: Map<BlankNodeView, BlankNodeView>|
        #![trigger renamed_graph(first, names)]
        is_least_naming(first, first_nodes, names) && first_form == renamed_graph(first, names)
            && is_sorted(form_seq(first, names)) && form_seq(first, names).to_set() == form_keys(
            first,
            names,
        );
    let second_names = choose|names: Map<BlankNodeView, BlankNodeView>|
        #![trigger renamed_graph(second, names)]
        is_least_naming(second, second_nodes, names) && second_form == renamed_graph(
            second,
            names,
        ) && is_sorted(form_seq(second, names)) && form_seq(second, names).to_set()
            == form_keys(second, names);
    lemma_isomorphic_graphs_have_one_form(
        first,
        second,
        first_nodes,
        second_nodes,
        first_names,
        second_names,
    );
    let keys_a = form_keys(first, first_names);
    let keys_b = form_keys(second, second_names);
    assert(keys_a == keys_b);
    assert forall|triple: TripleView| first_form.contains(triple) <==> second_form.contains(
        triple,
    ) by {
        if first_form.contains(triple) {
            let source = choose|source: TripleView|
                first.contains(source) && #[trigger] renamed_triple(source, first_names)
                    == triple;
            assert(keys_a.contains(triple_key_bytes(renamed_triple(source, first_names))));
            assert(keys_b.contains(triple_key_bytes(triple)));
            let other = choose|other: TripleView|
                second.contains(other) && #[trigger] triple_key_bytes(
                    renamed_triple(other, second_names),
                ) == triple_key_bytes(triple);
            lemma_key_tells_triples_apart(renamed_triple(other, second_names), triple);
            assert(second_form.contains(renamed_triple(other, second_names)));
        }
        if second_form.contains(triple) {
            let source = choose|source: TripleView|
                second.contains(source) && #[trigger] renamed_triple(source, second_names)
                    == triple;
            assert(keys_b.contains(triple_key_bytes(renamed_triple(source, second_names))));
            assert(keys_a.contains(triple_key_bytes(triple)));
            let other = choose|other: TripleView|
                first.contains(other) && #[trigger] triple_key_bytes(
                    renamed_triple(other, first_names),
                ) == triple_key_bytes(triple);
            lemma_key_tells_triples_apart(renamed_triple(other, first_names), triple);
            assert(first_form.contains(renamed_triple(other, first_names)));
        }
    }
    assert(first_form =~= second_form);
}

/// The canonical forms of two graphs are one graph if and only if the two
/// graphs are the same but for the names of their blank nodes.
pub proof fn lemma_canonical_forms_agree_iff_isomorphic(
    first: Set<TripleView>,
    second: Set<TripleView>,
    first_nodes: Seq<BlankNodeView>,
    second_nodes: Seq<BlankNodeView>,
    first_form: Set<TripleView>,
    second_form: Set<TripleView>,
)
    requires
        first_nodes.no_duplicates(),
        second_nodes.no_duplicates(),
        first_nodes.to_set() == graph_blank_nodes(first),
        second_nodes.to_set() == graph_blank_nodes(second),
        is_canonical_form(first_form, first, first_nodes),
        is_canonical_form(second_form, second, second_nodes),
    ensures
        first_form == second_form <==> isomorphic(first, second),
{
    if isomorphic(first, second) {
        lemma_isomorphic_graphs_have_one_canonical_form(
            first,
            second,
            first_nodes,
            second_nodes,
            first_form,
            second_form,
        );
    }
    if first_form == second_form {
        let first_names = choose|names: Map<BlankNodeView, BlankNodeView>|
            #![trigger renamed_graph(first, names)]
            is_least_naming(first, first_nodes, names) && first_form == renamed_graph(
                first,
                names,
            ) && is_sorted(form_seq(first, names)) && form_seq(first, names).to_set()
                == form_keys(first, names);
        let second_names = choose|names: Map<BlankNodeView, BlankNodeView>|
            #![trigger renamed_graph(second, names)]
            is_least_naming(second, second_nodes, names) && second_form == renamed_graph(
                second,
                names,
            ) && is_sorted(form_seq(second, names)) && form_seq(second, names).to_set()
                == form_keys(second, names);
        lemma_same_form_is_isomorphic(first, second, first_names, second_names);
    }
}

} // verus!

//! The keys of the quads in the indexes: the layouts of the terms of a quad,
//! one behind the other in the order of the index. An index is the ordered
//! set of the keys of its quads, and serves a pattern by a scan of the keys
//! that begin with the layouts of the terms of the pattern.

use crate::storage::backend::{begins_with, lemma_key_lt_irreflexive, with_prefix, ColumnFamily};
use crate::storage::binary_encoder::{
    lemma_term_round_trip, read_term, term_at, term_bytes, write_term,
};
use crate::storage::index::{
    key_of, lemma_key_round_trip, quad_of, read_key, IndexKey, IndexOrder, QuadIndex,
};
use crate::storage::numeric_encoder::{encoded_term_wf, EncodedQuad, EncodedTerm};
use vstd::prelude::*;

verus! {

/// The layouts of some terms, one behind the other.
pub open spec fn terms_bytes(terms: Seq<EncodedTerm>) -> Seq<u8>
    decreases terms.len(),
{
    if terms.len() == 0 {
        Seq::empty()
    } else {
        term_bytes(terms[0]) + terms_bytes(terms.drop_first())
    }
}

/// Whether the small strings of some terms are in order.
pub open spec fn terms_wf(terms: Seq<EncodedTerm>) -> bool {
    forall|i: int| 0 <= i < terms.len() ==> encoded_term_wf(#[trigger] terms[i])
}

/// The terms of the key of a quad in an index, in the order of the index:
/// three in an index of the default graph, which leaves the graph out, and
/// four in the others.
pub open spec fn key_terms(index: QuadIndex, quad: EncodedQuad) -> Seq<EncodedTerm> {
    let key = key_of(index.order(), quad);
    if index.holds_default_graph() {
        seq![key.first, key.second, key.third]
    } else {
        seq![key.first, key.second, key.third, key.fourth]
    }
}

/// The key of a quad in an index.
pub open spec fn key_bytes(index: QuadIndex, quad: EncodedQuad) -> Seq<u8> {
    terms_bytes(key_terms(index, quad))
}

/// Whether a quad can stand in an index: its small strings are in order,
/// and in an index of the default graph its graph is the default graph.
pub open spec fn fits(index: QuadIndex, quad: EncodedQuad) -> bool {
    quad.wf() && (index.holds_default_graph() ==> quad.graph_name == EncodedTerm::DefaultGraph)
}

/// The quad whose key in an index some bytes are, if they are one.
pub open spec fn quad_at(index: QuadIndex, bytes: Seq<u8>) -> Option<EncodedQuad> {
    match term_at(bytes, 0) {
        Some((first, after_first)) => match term_at(bytes, after_first) {
            Some((second, after_second)) => match term_at(bytes, after_second) {
                Some((third, after_third)) => if index.holds_default_graph() {
                    if after_third == bytes.len() {
                        Some(
                            quad_of(
                                index.order(),
                                IndexKey { first, second, third, fourth: EncodedTerm::DefaultGraph },
                            ),
                        )
                    } else {
                        None
                    }
                } else {
                    match term_at(bytes, after_third) {
                        Some((fourth, after_fourth)) => if after_fourth == bytes.len() {
                            Some(quad_of(index.order(), IndexKey { first, second, third, fourth }))
                        } else {
                            None
                        },
                        None => None,
                    }
                },
                None => None,
            },
            None => None,
        },
        None => None,
    }
}

proof fn lemma_terms_bytes_push(terms: Seq<EncodedTerm>, term: EncodedTerm)
    ensures
        terms_bytes(terms.push(term)) == terms_bytes(terms) + term_bytes(term),
    decreases terms.len(),
{
    let all = terms.push(term);
    if terms.len() == 0 {
        assert(all.drop_first() =~= Seq::<EncodedTerm>::empty());
        assert(terms_bytes(all.drop_first()) =~= Seq::<u8>::empty());
        assert(terms_bytes(terms) =~= Seq::<u8>::empty());
        assert(all[0] == term);
        assert(terms_bytes(all) =~= term_bytes(term));
        assert(terms_bytes(terms) + term_bytes(term) =~= term_bytes(term));
    } else {
        lemma_terms_bytes_push(terms.drop_first(), term);
        assert(all.drop_first() =~= terms.drop_first().push(term));
        assert(terms_bytes(all) =~= terms_bytes(terms) + term_bytes(term));
    }
}

/// Appends the layouts of some terms, one behind the other.
pub fn write_terms(terms: &Vec<EncodedTerm>) -> (r: Vec<u8>)
    ensures
        r@ == terms_bytes(terms@),
        terms_wf(terms@),
{
    let mut out: Vec<u8> = Vec::new();
    let mut i: usize = 0;
    proof {
        assert(terms@.take(0) =~= Seq::<EncodedTerm>::empty());
    }
    while i < terms.len()
        invariant
            i <= terms@.len(),
            out@ == terms_bytes(terms@.take(i as int)),
            terms_wf(terms@.take(i as int)),
        decreases terms@.len() - i,
    {
        write_term(&mut out, &terms[i]);
        proof {
            lemma_terms_bytes_push(terms@.take(i as int), terms@[i as int]);
            assert(terms@.take(i as int + 1) =~= terms@.take(i as int).push(terms@[i as int]));
            assert forall|j: int| 0 <= j < i + 1 implies encoded_term_wf(
                #[trigger] terms@.take(i as int + 1)[j],
            ) by {
                if j < i {
                    assert(terms@.take(i as int)[j] == terms@[j]);
                }
            }
        }
        i += 1;
    }
    proof {
        assert(terms@.take(terms@.len() as int) =~= terms@);
    }
    out
}

impl QuadIndex {
    /// Whether the index holds the quads of the default graph.
    pub fn in_default_graph(self) -> (r: bool)
        ensures
            r == self.holds_default_graph(),
    {
        match self {
            QuadIndex::Dspo => true,
            QuadIndex::Dpos => true,
            QuadIndex::Dosp => true,
            _ => false,
        }
    }
}

/// Writes the key of a quad in an index. Every small string of a quad
/// whose key can be written is in order.
pub fn write_key(index: QuadIndex, quad: &EncodedQuad) -> (r: Vec<u8>)
    ensures
        r@ == key_bytes(index, *quad),
        terms_wf(key_terms(index, *quad)),
{
    let order = index.key_order();
    let mut out: Vec<u8> = Vec::new();
    let ghost terms = key_terms(index, *quad);
    let ghost none = Seq::<EncodedTerm>::empty();
    write_term(&mut out, quad.term(order.position_at(0)));
    write_term(&mut out, quad.term(order.position_at(1)));
    write_term(&mut out, quad.term(order.position_at(2)));
    proof {
        lemma_terms_bytes_push(none, terms[0]);
        lemma_terms_bytes_push(none.push(terms[0]), terms[1]);
        lemma_terms_bytes_push(none.push(terms[0]).push(terms[1]), terms[2]);
        assert(terms_bytes(none) =~= Seq::<u8>::empty());
    }
    if !index.in_default_graph() {
        write_term(&mut out, quad.term(order.position_at(3)));
        proof {
            lemma_terms_bytes_push(none.push(terms[0]).push(terms[1]).push(terms[2]), terms[3]);
            assert(terms =~= none.push(terms[0]).push(terms[1]).push(terms[2]).push(terms[3]));
        }
    } else {
        proof {
            assert(terms =~= none.push(terms[0]).push(terms[1]).push(terms[2]));
        }
    }
    out
}

/// Reads the quad whose key in an index some bytes are, if they are one.
pub fn read_quad(index: QuadIndex, bytes: &[u8]) -> (r: Option<EncodedQuad>)
    ensures
        r == quad_at(index, bytes@),
{
    let (first, after_first) = match read_term(bytes, 0) {
        Some(read) => read,
        None => { return None; },
    };
    let (second, after_second) = match read_term(bytes, after_first) {
        Some(read) => read,
        None => { return None; },
    };
    let (third, after_third) = match read_term(bytes, after_second) {
        Some(read) => read,
        None => { return None; },
    };
    if index.in_default_graph() {
        if after_third != bytes.len() {
            return None;
        }
        let key = IndexKey { first, second, third, fourth: EncodedTerm::DefaultGraph };
        Some(read_key(index.key_order(), &key))
    } else {
        let (fourth, after_fourth) = match read_term(bytes, after_third) {
            Some(read) => read,
            None => { return None; },
        };
        if after_fourth != bytes.len() {
            return None;
        }
        let key = IndexKey { first, second, third, fourth };
        Some(read_key(index.key_order(), &key))
    }
}

/// Reading the layout of a term at the place from which it stands gives
/// the term back, and what stands behind it is left.
proof fn lemma_term_in_key(bytes: Seq<u8>, at: int, term: EncodedTerm, rest: Seq<u8>)
    requires
        encoded_term_wf(term),
        0 <= at <= bytes.len(),
        bytes.skip(at) == term_bytes(term) + rest,
    ensures
        term_at(bytes, at) == Some((term, at + term_bytes(term).len())),
        bytes.skip(at + term_bytes(term).len()) == rest,
        at + term_bytes(term).len() <= bytes.len(),
{
    let layout = term_bytes(term);
    assert(bytes.skip(at).len() == layout.len() + rest.len());
    assert(bytes.subrange(at, at + layout.len()) =~= layout) by {
        assert forall|i: int| 0 <= i < layout.len() implies bytes[at + i] == layout[i] by {
            assert(bytes.skip(at)[i] == layout[i]);
        }
    }
    lemma_term_round_trip(term, bytes, at);
    assert(bytes.skip(at + layout.len()) =~= rest) by {
        assert forall|i: int| 0 <= i < rest.len() implies bytes[at + layout.len() + i]
            == rest[i] by {
            assert(bytes.skip(at)[layout.len() + i] == rest[i]);
        }
    }
}

/// The places behind the first, the second, the third and the fourth of
/// some terms in their layouts.
pub open spec fn place_behind(terms: Seq<EncodedTerm>, count: int) -> int
    decreases count,
{
    if count <= 0 {
        0
    } else {
        place_behind(terms, count - 1) + term_bytes(terms[count - 1]).len()
    }
}

/// Reading the layouts of three or four terms, term by term, gives the
/// terms back and ends where the layouts end.
proof fn lemma_key_reads(terms: Seq<EncodedTerm>)
    requires
        terms_wf(terms),
        terms.len() == 3 || terms.len() == 4,
    ensures
        term_at(terms_bytes(terms), 0) == Some((terms[0], place_behind(terms, 1))),
        term_at(terms_bytes(terms), place_behind(terms, 1)) == Some(
            (terms[1], place_behind(terms, 2)),
        ),
        term_at(terms_bytes(terms), place_behind(terms, 2)) == Some(
            (terms[2], place_behind(terms, 3)),
        ),
        terms.len() == 3 ==> place_behind(terms, 3) == terms_bytes(terms).len(),
        terms.len() == 4 ==> term_at(terms_bytes(terms), place_behind(terms, 3)) == Some(
            (terms[3], place_behind(terms, 4)),
        ) && place_behind(terms, 4) == terms_bytes(terms).len(),
{
    let bytes = terms_bytes(terms);
    let none = Seq::<u8>::empty();
    assert(bytes.skip(0) =~= bytes);
    let a = term_bytes(terms[0]);
    let b = term_bytes(terms[1]);
    let c = term_bytes(terms[2]);
    let ts1 = terms.drop_first();
    let ts2 = ts1.drop_first();
    let ts3 = ts2.drop_first();
    assert(ts1[0] == terms[1] && ts2[0] == terms[2]);
    assert(terms_bytes(terms) == a + terms_bytes(ts1));
    assert(terms_bytes(ts1) == b + terms_bytes(ts2));
    assert(terms_bytes(ts2) == c + terms_bytes(ts3));
    assert(place_behind(terms, 0) == 0);
    assert(place_behind(terms, 1) == a.len());
    assert(place_behind(terms, 2) == a.len() + b.len());
    assert(place_behind(terms, 3) == a.len() + b.len() + c.len());
    lemma_term_in_key(bytes, 0, terms[0], terms_bytes(ts1));
    lemma_term_in_key(bytes, a.len() as int, terms[1], terms_bytes(ts2));
    lemma_term_in_key(bytes, (a.len() + b.len()) as int, terms[2], terms_bytes(ts3));
    if terms.len() == 3 {
        assert(ts3 =~= Seq::<EncodedTerm>::empty());
        assert(terms_bytes(ts3) =~= none);
        assert(bytes.skip((a.len() + b.len() + c.len()) as int).len() == 0);
    } else {
        let d = term_bytes(terms[3]);
        let ts4 = ts3.drop_first();
        assert(ts3[0] == terms[3]);
        assert(ts4 =~= Seq::<EncodedTerm>::empty());
        assert(terms_bytes(ts3) == d + terms_bytes(ts4));
        assert(terms_bytes(ts4) =~= none);
        assert(place_behind(terms, 4) == a.len() + b.len() + c.len() + d.len());
        lemma_term_in_key(
            bytes,
            (a.len() + b.len() + c.len()) as int,
            terms[3],
            terms_bytes(ts4),
        );
        assert(bytes.skip((a.len() + b.len() + c.len() + d.len()) as int).len() == 0);
    }
}

/// Reading the key of a quad gives the quad back.
pub proof fn lemma_key_bytes_round_trip(index: QuadIndex, quad: EncodedQuad)
    requires
        fits(index, quad),
    ensures
        quad_at(index, key_bytes(index, quad)) == Some(quad),
{
    let terms = key_terms(index, quad);
    let key = key_of(index.order(), quad);
    lemma_key_round_trip(index.order(), quad, key);
    lemma_key_reads(terms);
    if index.holds_default_graph() {
        assert(key == IndexKey {
            first: terms[0],
            second: terms[1],
            third: terms[2],
            fourth: EncodedTerm::DefaultGraph,
        });
    } else {
        assert(key == IndexKey {
            first: terms[0],
            second: terms[1],
            third: terms[2],
            fourth: terms[3],
        });
    }
}

/// The layouts of some terms begin with the layouts of others just where
/// the terms begin with the others.
pub proof fn lemma_terms_prefix(key: Seq<EncodedTerm>, prefix: Seq<EncodedTerm>)
    requires
        terms_wf(key),
        terms_wf(prefix),
        prefix.len() <= key.len(),
    ensures
        begins_with(terms_bytes(key), terms_bytes(prefix)) <==> (forall|i: int|
            0 <= i < prefix.len() ==> key[i] == prefix[i]),
    decreases prefix.len(),
{
    let k = terms_bytes(key);
    let p = terms_bytes(prefix);
    if prefix.len() == 0 {
        assert(k.take(0) =~= p);
    } else {
        let key_rest = key.drop_first();
        let prefix_rest = prefix.drop_first();
        let kr = terms_bytes(key_rest);
        let pr = terms_bytes(prefix_rest);
        let key_first = term_bytes(key[0]);
        let prefix_first = term_bytes(prefix[0]);
        assert(terms_wf(key_rest)) by {
            assert forall|i: int| 0 <= i < key_rest.len() implies encoded_term_wf(
                #[trigger] key_rest[i],
            ) by {
                assert(key_rest[i] == key[i + 1]);
            }
        }
        assert(terms_wf(prefix_rest)) by {
            assert forall|i: int| 0 <= i < prefix_rest.len() implies encoded_term_wf(
                #[trigger] prefix_rest[i],
            ) by {
                assert(prefix_rest[i] == prefix[i + 1]);
            }
        }
        lemma_terms_prefix(key_rest, prefix_rest);
        let rest_match = forall|i: int| 0 <= i < prefix_rest.len() ==> key_rest[i] == prefix_rest[i];
        if begins_with(k, p) {
            assert(k.subrange(0, prefix_first.len() as int) =~= prefix_first) by {
                assert forall|i: int| 0 <= i < prefix_first.len() implies k[i] == prefix_first[i] by {
                    assert(k.take(p.len() as int)[i] == p[i]);
                }
            }
            lemma_term_round_trip(prefix[0], k, 0);
            assert(k.subrange(0, key_first.len() as int) =~= key_first);
            lemma_term_round_trip(key[0], k, 0);
            assert(key[0] == prefix[0]);
            assert(kr.take(pr.len() as int) =~= pr) by {
                assert forall|i: int| 0 <= i < pr.len() implies kr[i] == pr[i] by {
                    assert(k.take(p.len() as int)[key_first.len() + i] == p[key_first.len() + i]);
                }
            }
            assert(begins_with(kr, pr));
            assert forall|i: int| 0 <= i < prefix.len() implies key[i] == prefix[i] by {
                if i > 0 {
                    assert(key_rest[i - 1] == key[i]);
                    assert(prefix_rest[i - 1] == prefix[i]);
                }
            }
        }
        if forall|i: int| 0 <= i < prefix.len() ==> key[i] == prefix[i] {
            assert(key[0] == prefix[0]);
            assert forall|i: int| 0 <= i < prefix_rest.len() implies key_rest[i]
                == prefix_rest[i] by {
                assert(key_rest[i] == key[i + 1]);
                assert(prefix_rest[i] == prefix[i + 1]);
            }
            assert(begins_with(kr, pr));
            assert(k.take(p.len() as int) =~= p) by {
                assert forall|i: int| 0 <= i < p.len() implies k[i] == p[i] by {
                    if i >= key_first.len() {
                        assert(kr.take(pr.len() as int)[i - key_first.len()] == pr[i - key_first.len()]);
                    }
                }
            }
        }
    }
}

/// The key of a quad begins with the layouts of some terms just where its
/// terms, in the order of the index, begin with them.
pub proof fn lemma_key_prefix(index: QuadIndex, quad: EncodedQuad, prefix: Seq<EncodedTerm>)
    requires
        fits(index, quad),
        terms_wf(prefix),
        prefix.len() <= key_terms(index, quad).len(),
    ensures
        begins_with(key_bytes(index, quad), terms_bytes(prefix)) <==> key_of(
            index.order(),
            quad,
        ).has_prefix(prefix),
{
    let terms = key_terms(index, quad);
    let key = key_of(index.order(), quad);
    assert(terms_wf(terms));
    lemma_terms_prefix(terms, prefix);
    if key.has_prefix(prefix) {
        assert forall|i: int| 0 <= i < prefix.len() implies terms[i] == prefix[i] by {
            assert(key.term_at(i) == prefix[i]);
        }
    }
    if forall|i: int| 0 <= i < prefix.len() ==> terms[i] == prefix[i] {
        assert forall|at: int| 0 <= at < prefix.len() implies key.term_at(at)
            == #[trigger] prefix[at] by {
            assert(terms[at] == prefix[at]);
        }
    }
}

/// The quads, of some quads, whose terms in the order of an index begin
/// with some terms, in the order of the quads.
pub open spec fn chosen(quads: Seq<EncodedQuad>, order: IndexOrder, prefix: Seq<EncodedTerm>) -> Seq<
    EncodedQuad,
>
    decreases quads.len(),
{
    if quads.len() == 0 {
        Seq::empty()
    } else if key_of(order, quads.last()).has_prefix(prefix) {
        chosen(quads.drop_last(), order, prefix).push(quads.last())
    } else {
        chosen(quads.drop_last(), order, prefix)
    }
}

/// The chosen quads are those of the quads whose terms begin with the
/// given ones, and none of them comes twice where none of the quads does.
pub proof fn lemma_chosen(quads: Seq<EncodedQuad>, order: IndexOrder, prefix: Seq<EncodedTerm>)
    ensures
        forall|quad: EncodedQuad|
            #![trigger chosen(quads, order, prefix).contains(quad)]
            chosen(quads, order, prefix).contains(quad) <==> quads.contains(quad) && key_of(
                order,
                quad,
            ).has_prefix(prefix),
        quads.no_duplicates() ==> chosen(quads, order, prefix).no_duplicates(),
    decreases quads.len(),
{
    let all = chosen(quads, order, prefix);
    if quads.len() == 0 {
        assert forall|quad: EncodedQuad|
            #![trigger all.contains(quad)]
            all.contains(quad) <==> quads.contains(quad) && key_of(order, quad).has_prefix(
                prefix,
            ) by {
            assert(all.len() == 0);
        }
    } else {
        let front = quads.drop_last();
        let last = quads.last();
        lemma_chosen(front, order, prefix);
        let before = chosen(front, order, prefix);
        assert forall|quad: EncodedQuad|
            #![trigger all.contains(quad)]
            all.contains(quad) <==> quads.contains(quad) && key_of(order, quad).has_prefix(
                prefix,
            ) by {
            if all.contains(quad) {
                let i = choose|i: int| 0 <= i < all.len() && all[i] == quad;
                if key_of(order, last).has_prefix(prefix) && i == all.len() - 1 {
                    assert(quads[quads.len() - 1] == quad);
                } else {
                    assert(before[i] == quad);
                    assert(before.contains(quad));
                    let j = choose|j: int| 0 <= j < front.len() && front[j] == quad;
                    assert(quads[j] == quad);
                }
            }
            if quads.contains(quad) && key_of(order, quad).has_prefix(prefix) {
                let j = choose|j: int| 0 <= j < quads.len() && quads[j] == quad;
                if j == quads.len() - 1 {
                    assert(all[all.len() - 1] == quad);
                } else {
                    assert(front[j] == quad);
                    assert(before.contains(quad));
                    let i = choose|i: int| 0 <= i < before.len() && before[i] == quad;
                    assert(all[i] == quad);
                }
            }
        }
        if quads.no_duplicates() {
            assert(front.no_duplicates());
            if key_of(order, last).has_prefix(prefix) {
                assert(!before.contains(last)) by {
                    if before.contains(last) {
                        assert(front.contains(last));
                        let j = choose|j: int| 0 <= j < front.len() && front[j] == last;
                        assert(quads[j] == quads[quads.len() - 1]);
                    }
                }
                assert forall|i: int, j: int| 0 <= i < j < all.len() implies all[i] != all[j] by {
                    if j == all.len() - 1 {
                        assert(before[i] == all[i]);
                        assert(before.contains(all[i]));
                    } else {
                        assert(before[i] == all[i] && before[j] == all[j]);
                    }
                }
            }
        }
    }
}

impl QuadIndex {
    /// The number of terms in a key of the index.
    pub open spec fn key_len(self) -> nat {
        if self.holds_default_graph() {
            3
        } else {
            4
        }
    }
}

/// Whether some keys are those of some quads in an index, one for one.
pub open spec fn keyed(index: QuadIndex, keys: Seq<Seq<u8>>, quads: Seq<EncodedQuad>) -> bool {
    &&& keys.len() == quads.len()
    &&& forall|i: int|
        0 <= i < keys.len() ==> fits(index, #[trigger] quads[i]) && keys[i] == key_bytes(
            index,
            quads[i],
        )
}

/// The keys that begin with the layouts of some terms are those of the
/// quads whose terms begin with them, one for one.
proof fn lemma_scan(
    index: QuadIndex,
    keys: Seq<Seq<u8>>,
    quads: Seq<EncodedQuad>,
    prefix: Seq<EncodedTerm>,
)
    requires
        keyed(index, keys, quads),
        terms_wf(prefix),
        prefix.len() <= index.key_len(),
    ensures
        keyed(
            index,
            with_prefix(keys, terms_bytes(prefix)),
            chosen(quads, index.order(), prefix),
        ),
    decreases keys.len(),
{
    if keys.len() > 0 {
        let front_keys = keys.drop_last();
        let front_quads = quads.drop_last();
        assert(keyed(index, front_keys, front_quads)) by {
            assert forall|i: int| 0 <= i < front_keys.len() implies fits(
                index,
                #[trigger] front_quads[i],
            ) && front_keys[i] == key_bytes(index, front_quads[i]) by {
                assert(front_quads[i] == quads[i]);
            }
        }
        lemma_scan(index, front_keys, front_quads, prefix);
        let last = quads.last();
        assert(fits(index, quads[quads.len() - 1]));
        assert(keys.last() == key_bytes(index, last));
        lemma_key_prefix(index, last, prefix);
        let found = with_prefix(keys, terms_bytes(prefix));
        let want = chosen(quads, index.order(), prefix);
        let found_before = with_prefix(front_keys, terms_bytes(prefix));
        let want_before = chosen(front_quads, index.order(), prefix);
        assert forall|i: int| 0 <= i < found.len() implies fits(index, #[trigger] want[i])
            && found[i] == key_bytes(index, want[i]) by {
            if i < found_before.len() {
                assert(fits(index, want_before[i]));
                assert(want[i] == want_before[i]);
            }
        }
    }
}

/// The quads whose keys some bytes are, one for one.
pub open spec fn decoded(index: QuadIndex, keys: Seq<Seq<u8>>) -> Seq<EncodedQuad> {
    Seq::new(keys.len(), |i: int| quad_at(index, keys[i])->Some_0)
}

/// Reading the keys of some quads gives the quads back.
proof fn lemma_decoded(index: QuadIndex, keys: Seq<Seq<u8>>, quads: Seq<EncodedQuad>)
    requires
        keyed(index, keys, quads),
    ensures
        decoded(index, keys) == quads,
{
    assert forall|i: int| 0 <= i < keys.len() implies decoded(index, keys)[i] == quads[i] by {
        assert(fits(index, quads[i]));
        lemma_key_bytes_round_trip(index, quads[i]);
    }
    assert(decoded(index, keys) =~= quads);
}

proof fn lemma_keyed_insert(
    index: QuadIndex,
    keys: Seq<Seq<u8>>,
    quads: Seq<EncodedQuad>,
    at: int,
    quad: EncodedQuad,
)
    requires
        keyed(index, keys, quads),
        fits(index, quad),
        0 <= at <= keys.len(),
    ensures
        keyed(index, keys.insert(at, key_bytes(index, quad)), quads.insert(at, quad)),
{
    let after = quads.insert(at, quad);
    let after_keys = keys.insert(at, key_bytes(index, quad));
    assert forall|i: int| 0 <= i < after_keys.len() implies fits(index, #[trigger] after[i])
        && after_keys[i] == key_bytes(index, after[i]) by {
        if i < at {
            assert(fits(index, quads[i]));
        } else if i > at {
            assert(fits(index, quads[i - 1]));
        }
    }
}

proof fn lemma_keyed_remove(
    index: QuadIndex,
    keys: Seq<Seq<u8>>,
    quads: Seq<EncodedQuad>,
    at: int,
)
    requires
        keyed(index, keys, quads),
        0 <= at < keys.len(),
    ensures
        keyed(index, keys.remove(at), quads.remove(at)),
{
    let after = quads.remove(at);
    let after_keys = keys.remove(at);
    assert forall|i: int| 0 <= i < after_keys.len() implies fits(index, #[trigger] after[i])
        && after_keys[i] == key_bytes(index, after[i]) by {
        if i < at {
            assert(fits(index, quads[i]));
        } else {
            assert(fits(index, quads[i + 1]));
        }
    }
}

/// One of the indexes: the ordered set of the keys of its quads.
pub struct KeyIndex {
    which: QuadIndex,
    family: ColumnFamily,
}

impl KeyIndex {
    /// Which of the indexes this is.
    pub closed spec fn which(&self) -> QuadIndex {
        self.which
    }

    /// The quads of the index, in the order of their keys.
    pub closed spec fn quads(&self) -> Seq<EncodedQuad> {
        decoded(self.which, self.family@)
    }

    /// The keys stand in their order, none twice, and each is the key of a
    /// quad that can stand in the index.
    pub closed spec fn wf(&self) -> bool {
        self.family.wf() && keyed(self.which, self.family@, self.quads())
    }

    /// No quad stands twice in the index, and every quad of it can stand
    /// there.
    pub proof fn lemma_quads(&self)
        requires
            self.wf(),
        ensures
            self.quads().no_duplicates(),
            forall|i: int| 0 <= i < self.quads().len() ==> fits(self.which(), #[trigger] self.quads()[i]),
    {
        let quads = self.quads();
        assert forall|i: int, j: int| 0 <= i < j < quads.len() implies quads[i] != quads[j] by {
            assert(fits(self.which, quads[i]) && fits(self.which, quads[j]));
            lemma_key_lt_irreflexive(self.family@[i]);
        }
    }

    /// An index without quads.
    pub fn new(which: QuadIndex) -> (r: Self)
        ensures
            r.wf(),
            r.which() == which,
            r.quads() == Seq::<EncodedQuad>::empty(),
    {
        let r = Self { which, family: ColumnFamily::new() };
        proof {
            assert(r.quads() =~= Seq::<EncodedQuad>::empty());
        }
        r
    }

    /// The number of quads.
    pub fn len(&self) -> (r: usize)
        ensures
            r == self.quads().len(),
    {
        self.family.len()
    }

    /// Whether there is no quad.
    pub fn is_empty(&self) -> (r: bool)
        ensures
            r == (self.quads().len() == 0),
    {
        self.family.is_empty()
    }

    /// A quad stands in the index just where its key does.
    proof fn lemma_membership(&self, quad: EncodedQuad)
        requires
            self.wf(),
            fits(self.which, quad),
        ensures
            self.quads().contains(quad) <==> self.family@.contains(key_bytes(self.which, quad)),
    {
        let quads = self.quads();
        let key = key_bytes(self.which, quad);
        if quads.contains(quad) {
            let i = choose|i: int| 0 <= i < quads.len() && quads[i] == quad;
            assert(self.family@[i] == key);
        }
        if self.family@.contains(key) {
            let i = choose|i: int| 0 <= i < self.family@.len() && self.family@[i] == key;
            assert(fits(self.which, quads[i]));
            lemma_key_bytes_round_trip(self.which, quad);
            lemma_key_bytes_round_trip(self.which, quads[i]);
            assert(quads[i] == quad);
        }
    }

    /// Whether a quad stands in the index.
    pub fn contains(&self, quad: &EncodedQuad) -> (r: bool)
        requires
            self.wf(),
        ensures
            r == self.quads().contains(*quad),
    {
        if self.which.in_default_graph() && !quad.graph_name.is_default_graph() {
            proof {
                if self.quads().contains(*quad) {
                    let i = choose|i: int| 0 <= i < self.quads().len() && self.quads()[i] == *quad;
                    assert(fits(self.which, self.quads()[i]));
                }
            }
            return false;
        }
        let key = write_key(self.which, quad);
        proof {
            lemma_quad_fits(self.which, *quad);
            self.lemma_membership(*quad);
        }
        self.family.contains_key(key.as_slice())
    }

    /// Writes the key of a quad into the index. Nothing changes where the
    /// quad stands there.
    pub fn insert(&mut self, quad: &EncodedQuad) -> (r: bool)
        requires
            old(self).wf(),
            old(self).which().holds_default_graph() ==> quad.graph_name
                == EncodedTerm::DefaultGraph,
        ensures
            final(self).wf(),
            final(self).which() == old(self).which(),
            r == !old(self).quads().contains(*quad),
            r ==> exists|at: int|
                0 <= at <= old(self).quads().len()
                    && #[trigger] old(self).quads().insert(at, *quad) == final(self).quads(),
            !r ==> final(self).quads() == old(self).quads(),
    {
        let key = write_key(self.which, quad);
        proof {
            lemma_quad_fits(self.which, *quad);
            self.lemma_membership(*quad);
            lemma_key_bytes_round_trip(self.which, *quad);
        }
        let ghost before = self.family@;
        let ghost quads = self.quads();
        let r = self.family.insert_empty(key.as_slice());
        proof {
            if r {
                let at = choose|at: int|
                    0 <= at <= before.len() && #[trigger] before.insert(at, key@)
                        == self.family@;
                lemma_keyed_insert(self.which, before, quads, at, *quad);
                lemma_decoded(self.which, self.family@, quads.insert(at, *quad));
            }
        }
        r
    }

    /// Takes the key of a quad out of the index. Nothing changes where the
    /// quad does not stand there.
    pub fn remove(&mut self, quad: &EncodedQuad) -> (r: bool)
        requires
            old(self).wf(),
        ensures
            final(self).wf(),
            final(self).which() == old(self).which(),
            r == old(self).quads().contains(*quad),
            r ==> exists|at: int|
                0 <= at < old(self).quads().len() && old(self).quads()[at] == *quad
                    && #[trigger] old(self).quads().remove(at) == final(self).quads(),
            !r ==> final(self).quads() == old(self).quads(),
    {
        if self.which.in_default_graph() && !quad.graph_name.is_default_graph() {
            proof {
                if self.quads().contains(*quad) {
                    let i = choose|i: int| 0 <= i < self.quads().len() && self.quads()[i] == *quad;
                    assert(fits(self.which, self.quads()[i]));
                }
            }
            return false;
        }
        let key = write_key(self.which, quad);
        proof {
            lemma_quad_fits(self.which, *quad);
            self.lemma_membership(*quad);
            lemma_key_bytes_round_trip(self.which, *quad);
        }
        let ghost before = self.family@;
        let ghost quads = self.quads();
        let r = self.family.remove(key.as_slice());
        proof {
            if r {
                let at = choose|at: int|
                    0 <= at < before.len() && before[at] == key@ && #[trigger] before.remove(at)
                        == self.family@;
                assert(fits(self.which, quads[at]));
                lemma_key_bytes_round_trip(self.which, quads[at]);
                lemma_keyed_remove(self.which, before, quads, at);
                lemma_decoded(self.which, self.family@, quads.remove(at));
            }
        }
        r
    }

    /// The quads whose terms, in the order of the index, begin with some
    /// terms: a scan of the keys that begin with the layouts of the terms.
    pub fn scan(&self, prefix: &Vec<EncodedTerm>) -> (r: Vec<EncodedQuad>)
        requires
            self.wf(),
            prefix@.len() <= self.which().key_len(),
        ensures
            r@ == chosen(self.quads(), self.which().order(), prefix@),
    {
        let start = write_terms(prefix);
        let keys = self.family.scan_prefix(start.as_slice());
        let ghost want = chosen(self.quads(), self.which.order(), prefix@);
        let ghost found = with_prefix(self.family@, start@);
        proof {
            lemma_scan(self.which, self.family@, self.quads(), prefix@);
        }
        let mut out: Vec<EncodedQuad> = Vec::new();
        let mut i: usize = 0;
        while i < keys.len()
            invariant
                i <= keys@.len(),
                keys@.len() == found.len(),
                forall|j: int| 0 <= j < keys@.len() ==> (#[trigger] keys@[j])@ == found[j],
                keyed(self.which, found, want),
                out@ == want.take(i as int),
            decreases keys@.len() - i,
        {
            proof {
                assert(keys@[i as int]@ == found[i as int]);
                assert(fits(self.which, want[i as int]));
                lemma_key_bytes_round_trip(self.which, want[i as int]);
            }
            match read_quad(self.which, keys[i].as_slice()) {
                Some(quad) => {
                    out.push(quad);
                },
                None => {},
            }
            proof {
                assert(out@ =~= want.take(i as int + 1));
            }
            i += 1;
        }
        proof {
            assert(want.take(want.len() as int) =~= want);
        }
        out
    }

    /// A copy of the index.
    pub fn duplicate(&self) -> (r: Self)
        ensures
            r.which() == self.which(),
            r.quads() == self.quads(),
            self.wf() ==> r.wf(),
    {
        let r = Self { which: self.which, family: self.family.duplicate() };
        proof {
            assert(r.quads() =~= self.quads());
        }
        r
    }
}

/// A quad whose terms in a key are in order, and whose graph is the default
/// graph in an index that leaves the graph out, can stand in the index.
proof fn lemma_quad_fits(index: QuadIndex, quad: EncodedQuad)
    requires
        terms_wf(key_terms(index, quad)),
        index.holds_default_graph() ==> quad.graph_name == EncodedTerm::DefaultGraph,
    ensures
        fits(index, quad),
{
    let terms = key_terms(index, quad);
    assert(encoded_term_wf(terms[0]));
    assert(encoded_term_wf(terms[1]));
    assert(encoded_term_wf(terms[2]));
    if !index.holds_default_graph() {
        assert(encoded_term_wf(terms[3]));
    }
}

} // verus!

//! How the counts of the string table follow the references that the quads
//! and the graph names hold.

use crate::storage::numeric_encoder::{
    encoded_hashes, table_insert_all, table_remove_all, EncodedQuad, EncodedTerm, StrRef,
};
use crate::storage::string_store::{StrEntryView, MAX_COUNT};
use vstd::prelude::*;

verus! {

/// How often an identifier stands in a sequence of identifiers.
pub open spec fn occurrences(hash: u128, hashes: Seq<u128>) -> nat
    decreases hashes.len(),
{
    if hashes.len() == 0 {
        0
    } else {
        occurrences(hash, hashes.drop_last()) + if hashes.last() == hash {
            1nat
        } else {
            0nat
        }
    }
}

/// The identifiers of some references.
pub open spec fn hashes_of(refs: Seq<StrRef>) -> Seq<u128> {
    Seq::new(refs.len(), |i: int| refs[i].hash)
}

/// The identifiers that the subject, the predicate and the object of a quad
/// hold.
pub open spec fn quad_hashes(quad: EncodedQuad) -> Seq<u128> {
    encoded_hashes(quad.subject) + encoded_hashes(quad.predicate) + encoded_hashes(quad.object)
}

/// How often the quads of a sequence refer to an identifier.
pub open spec fn quads_refs(hash: u128, quads: Seq<EncodedQuad>) -> nat
    decreases quads.len(),
{
    if quads.len() == 0 {
        0
    } else {
        quads_refs(hash, quads.drop_last()) + occurrences(hash, quad_hashes(quads.last()))
    }
}

/// How often the terms of a sequence refer to an identifier.
pub open spec fn terms_refs(hash: u128, terms: Seq<EncodedTerm>) -> nat
    decreases terms.len(),
{
    if terms.len() == 0 {
        0
    } else {
        terms_refs(hash, terms.drop_last()) + occurrences(hash, encoded_hashes(terms.last()))
    }
}

/// Whether the table counts an identifier as it should for a number of
/// references: no entry for none, else an entry with that count, or with
/// the count at the limit, where it stays.
pub open spec fn count_ok(table: Map<u128, StrEntryView>, hash: u128, refs: nat) -> bool {
    if table.contains_key(hash) {
        table[hash].count >= 1 && (table[hash].count == refs || table[hash].count >= MAX_COUNT)
    } else {
        refs == 0
    }
}

pub proof fn lemma_occurrences_concat(hash: u128, a: Seq<u128>, b: Seq<u128>)
    ensures
        occurrences(hash, a + b) == occurrences(hash, a) + occurrences(hash, b),
    decreases b.len(),
{
    if b.len() == 0 {
        assert(a + b =~= a);
    } else {
        lemma_occurrences_concat(hash, a, b.drop_last());
        assert((a + b).drop_last() =~= a + b.drop_last());
        assert((a + b).last() == b.last());
    }
}

pub proof fn lemma_quads_refs_remove(hash: u128, quads: Seq<EncodedQuad>, at: int)
    requires
        0 <= at < quads.len(),
    ensures
        quads_refs(hash, quads) == quads_refs(hash, quads.remove(at)) + occurrences(
            hash,
            quad_hashes(quads[at]),
        ),
    decreases quads.len(),
{
    if at == quads.len() - 1 {
        assert(quads.remove(at) =~= quads.drop_last());
    } else {
        lemma_quads_refs_remove(hash, quads.drop_last(), at);
        assert(quads.remove(at).drop_last() =~= quads.drop_last().remove(at));
        assert(quads.remove(at).last() == quads.last());
    }
}

pub proof fn lemma_terms_refs_push(hash: u128, terms: Seq<EncodedTerm>, term: EncodedTerm)
    ensures
        terms_refs(hash, terms.push(term)) == terms_refs(hash, terms) + occurrences(
            hash,
            encoded_hashes(term),
        ),
{
    assert(terms.push(term).drop_last() =~= terms);
}

pub proof fn lemma_terms_refs_remove(hash: u128, terms: Seq<EncodedTerm>, at: int)
    requires
        0 <= at < terms.len(),
    ensures
        terms_refs(hash, terms) == terms_refs(hash, terms.remove(at)) + occurrences(
            hash,
            encoded_hashes(terms[at]),
        ),
    decreases terms.len(),
{
    if at == terms.len() - 1 {
        assert(terms.remove(at) =~= terms.drop_last());
    } else {
        lemma_terms_refs_remove(hash, terms.drop_last(), at);
        assert(terms.remove(at).drop_last() =~= terms.drop_last().remove(at));
        assert(terms.remove(at).last() == terms.last());
    }
}

/// After references to some texts, the table counts every identifier as it
/// should for the references there were and the new ones.
pub proof fn lemma_count_after_insert_all(
    table: Map<u128, StrEntryView>,
    refs: Seq<StrRef>,
    hash: u128,
    before: nat,
)
    requires
        count_ok(table, hash, before),
    ensures
        count_ok(
            table_insert_all(table, refs),
            hash,
            before + occurrences(hash, hashes_of(refs)),
        ),
    decreases refs.len(),
{
    if refs.len() > 0 {
        lemma_count_after_insert_all(table, refs.drop_last(), hash, before);
        assert(hashes_of(refs).drop_last() =~= hashes_of(refs.drop_last()));
        assert(hashes_of(refs).last() == refs.last().hash);
    } else {
        assert(hashes_of(refs) =~= Seq::<u128>::empty());
    }
}

/// After some references are taken away, the table counts every identifier
/// as it should for the references that are left.
pub proof fn lemma_count_after_remove_all(
    table: Map<u128, StrEntryView>,
    hashes: Seq<u128>,
    hash: u128,
    before: nat,
)
    requires
        count_ok(table, hash, before),
        occurrences(hash, hashes) <= before,
    ensures
        count_ok(
            table_remove_all(table, hashes),
            hash,
            (before - occurrences(hash, hashes)) as nat,
        ),
    decreases hashes.len(),
{
    if hashes.len() > 0 {
        lemma_count_after_remove_all(table, hashes.drop_last(), hash, before);
    }
}

/// Taking references away changes no text, brings no entry, raises no
/// count, and leaves an entry whose count is at the limit as it is.
pub proof fn lemma_texts_after_remove_all(
    table: Map<u128, StrEntryView>,
    hashes: Seq<u128>,
    hash: u128,
)
    ensures
        table_remove_all(table, hashes).contains_key(hash) ==> table.contains_key(hash)
            && table_remove_all(table, hashes)[hash].text == table[hash].text
            && table_remove_all(table, hashes)[hash].count <= table[hash].count,
        table.contains_key(hash) && table[hash].count >= MAX_COUNT ==> table_remove_all(
            table,
            hashes,
        ).contains_key(hash) && table_remove_all(table, hashes)[hash] == table[hash],
    decreases hashes.len(),
{
    if hashes.len() > 0 {
        lemma_texts_after_remove_all(table, hashes.drop_last(), hash);
    }
}

/// Adding references changes no text that is there and drops no entry.
pub proof fn lemma_texts_after_insert_all(
    table: Map<u128, StrEntryView>,
    refs: Seq<StrRef>,
    hash: u128,
)
    ensures
        table.contains_key(hash) ==> table_insert_all(table, refs).contains_key(hash)
            && table_insert_all(table, refs)[hash].text == table[hash].text,
    decreases refs.len(),
{
    if refs.len() > 0 {
        lemma_texts_after_insert_all(table, refs.drop_last(), hash);
    }
}

} // verus!

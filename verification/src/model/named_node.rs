//! Named nodes: IRIs.

use vstd::prelude::*;

verus! {

/// Whether a text is an absolute IRI by the grammar of RFC 3987.
pub uninterp spec fn is_absolute_iri(text: Seq<char>) -> bool;

/// Asks `oxiri::Iri::parse` whether it accepts the text.
#[verifier::external_body]
fn iri_parses(iri: &str) -> (r: bool)
    ensures
        r == is_absolute_iri(iri@),
{
    oxiri::Iri::parse(iri).is_ok()
}

/// An IRI.
#[derive(Clone, Debug, PartialEq, Eq, Hash)]
pub struct NamedNode {
    iri: String,
}

impl View for NamedNode {
    type V = Seq<char>;

    closed spec fn view(&self) -> Seq<char> {
        self.iri@
    }
}

impl NamedNode {
    /// A named node for the text, where the text is an absolute IRI.
    pub fn new(iri: String) -> (r: Option<Self>)
        ensures
            r is Some <==> is_absolute_iri(iri@),
            r matches Some(node) ==> node@ == iri@,
    {
        if iri_parses(iri.as_str()) {
            Some(Self { iri })
        } else {
            None
        }
    }

    /// A named node for the text, taken as it is.
    pub fn new_unchecked(iri: String) -> (r: Self)
        ensures
            r@ == iri@,
    {
        Self { iri }
    }

    pub fn as_str(&self) -> (r: &str)
        ensures
            r@ == self@,
    {
        self.iri.as_str()
    }

    pub fn into_string(self) -> (r: String)
        ensures
            r@ == self@,
    {
        self.iri
    }

    /// A copy of the node.
    pub fn duplicate(&self) -> (r: Self)
        ensures
            r@ == self@,
    {
        Self { iri: self.iri.clone() }
    }

    /// Whether two nodes are the same IRI.
    pub fn same(&self, other: &Self) -> (r: bool)
        ensures
            r == (self@ == other@),
    {
        self.iri == other.iri
    }
}

} // verus!

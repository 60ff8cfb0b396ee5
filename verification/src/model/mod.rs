//! RDF terms, triples and quads, and an in-memory graph.

pub mod blank_node;
pub mod canonical;
pub mod date_time;
pub mod decimal;
pub mod duration;
pub mod graph;
pub mod isomorphism;
pub mod lexical;
pub mod literal;
pub mod named_node;
pub mod triple;
pub mod triple_key;
pub mod vocab;
pub mod xsd;

//! Core of an embeddable RDF quad store: the terms and their lexical forms,
//! the encoding of terms and the interning of their texts, the quad indexes
//! over ordered byte keys, and the evaluation of queries and updates.

pub mod io;
pub mod model;
pub mod seq_sets;
pub mod sparql;
pub mod storage;
pub mod text;

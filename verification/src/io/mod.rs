//! The formats of RDF files.

pub mod format;

//! Encoded terms, the string table and the quad indexes.

pub mod backend;
pub mod be_bytes;
pub mod binary_encoder;
pub mod index;
pub mod key_index;
pub mod numeric_encoder;
pub mod ref_count;
pub mod round_trip;
pub mod small_string;
pub mod store;
pub mod string_store;
pub mod well_typed;

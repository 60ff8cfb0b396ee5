//! The evaluation of queries and updates over the store.

pub mod algebra;
pub mod blank_nodes;
pub mod error;
pub mod eval;
pub mod options;
pub mod plan;
pub mod plan_builder;
pub mod projection;
pub mod query;
pub mod update;

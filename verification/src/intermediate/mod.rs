//! The intermediate representation: definitions and the registry that
//! links them, consumed by the generators.

pub mod graph;
pub mod order;
pub mod schema;
pub mod registry;

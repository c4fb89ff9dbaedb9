//! Versioned specification registry and cross-schema directive propagation
//! for GraphQL federation.

pub mod version;
pub mod error;
pub mod url;
pub mod directive;
pub mod link;
pub mod schema;
pub mod spec_definition;
pub mod cost;
pub mod connect;
pub mod field_length;

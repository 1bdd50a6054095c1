//! Field classification and builder synthesis for record definitions.
//!
//! The library reads a syntactic description of a record type
//! ([`syntax`]), classifies each field as required, optional or repeated
//! ([`classify`]), derives the storage and setters of a companion builder
//! ([`schema`]), and models how that builder behaves at run time
//! ([`runtime`]). [`laws`] proves the properties builders have.

pub mod syntax;
pub mod classify;
pub mod schema;
pub mod runtime;
pub mod laws;

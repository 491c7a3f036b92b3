//! A schema-driven object/graph store.
//!
//! Entity declarations are classified into plain and linked tables, every
//! reference field registers a back-reference on its target, and the
//! [`graphs::Graphs`] store keeps those back-references up to date on insert.

pub mod keys;
pub mod syntax;
pub mod schema;
pub mod graphs;
pub mod refs;
pub mod example;
pub mod laws;

//! A build planner for directories of SQL transformation models.
//!
//! The library parses nothing itself: it consumes a list of statements in the
//! abstract syntax shape declared in its own modules, extracts the table
//! references a statement depends upon, resolves them against the other
//! models and the declared imports, assembles the dependency graph with a
//! depth per model, and renders the result as text, DOT, JSON or YAML.

pub mod ast;
pub mod collection;
pub mod extract;
pub mod lexer;
pub mod lineage;
pub mod model;
pub mod serialize;
pub mod strutil;
pub mod tables;
pub mod token;
pub mod validate;

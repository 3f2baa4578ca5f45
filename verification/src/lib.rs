//! Compiler core for a declarative HTTP-API schema language.
//!
//! A schema describes a hierarchy of API groups and endpoints whose string
//! fields embed a small expression language (literals, `${path}` scope
//! references, `<name:type>` parameter bindings).  The library parses those
//! expressions, builds a scope-bound intermediate representation together
//! with a context tree for cross-scope lookups, and folds the result into a
//! JavaScript code model that renders to source text.

pub mod context;
pub mod javascript;
pub mod ordered;
pub mod rewriter;
pub mod schema;
pub mod se_parser;
pub mod text;
pub mod transformer;
pub mod utils;

//! Structural rewriting of source code, rule by rule.
//!
//! A rule matches a pattern in a syntax tree and puts an instantiated
//! template in its place. Constraints decide whether a match may be rewritten
//! by what stands in its surroundings, and edges between rules say which
//! rules a rewrite sets off. The engine applies the rules to one file until
//! none has a valid match left.
//!
//! Parsing and pattern matching are the tree-sitter runtime's part: `syntax`
//! holds the calls into it and what is taken on trust of them. All else is
//! proved against the specifications that stand beside the code.

pub mod constraint;
pub mod engine;
pub mod errors;
pub mod fixpoint;
pub mod matches;
pub mod query_cache;
pub mod rule;
pub mod rule_graph;
pub mod rule_store;
pub mod source_code_unit;
pub mod spans;
pub mod syntax;
pub mod tags;

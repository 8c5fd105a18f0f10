//! An expression language embedded in YAML documents.
//!
//! A string cell whose content contains the sigil `~>` is treated as an
//! expression over a scoped variable environment; structural YAML (sequences
//! and mappings) supplies control-flow keywords (`if`, `while`, `return`)
//! that drive imperative evaluation over the same environment.
pub mod appliers;
pub mod ast;
pub mod environment;
pub mod errors;
pub mod ffi_types;
pub mod helpers;
pub mod laws;
pub mod lexer;
pub mod parser;
pub mod yaml;

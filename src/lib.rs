//! Semantic core of a language server for the Calyx hardware description
//! language: component tables, cursor classification, definition lookup
//! across imported files, and completion. File paths are Unix paths.

pub mod completion;
pub mod convert;
pub mod diagnostic;
pub mod document;
pub mod goto_definition;
pub mod imports;
pub mod laws;
pub mod search;
pub mod symbols;
pub mod syntax;
pub mod table;
pub mod text;

//! Analysis core for a language server of a small textual live-coding
//! language: a rope-backed document buffer kept in sync with an incrementally
//! reparsed syntax tree, plus the structural queries answered against that
//! pair (definition resolution, semantic highlighting, coordinate mapping).

pub mod diagnostics;
pub mod document;
pub mod goto_definition;
pub mod helpers;
pub mod hover;
pub mod semantic_token;
pub mod text;

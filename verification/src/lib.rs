//! Semantic core of a small imperative-language compiler front end.
//!
//! Given an abstract syntax tree, the crate resolves every assignment
//! target to the lexical scope it belongs to and builds a flat symbol
//! table that supports nearest-enclosing-scope queries.  Lexical nesting
//! is encoded by scope keys: sequences of sibling-block indices, where
//! the prefix relation between keys is exactly the ancestor relation
//! between scopes.

mod ast;
mod error_handling;
mod scope_key;
mod semantic_analysis;
mod symbol_table;

pub use ast::{parse_declaration, AstNode, ComparisonVerb, MutationVerb};
pub use error_handling::{display_error, error_message, CompilationError};
pub use scope_key::ScopeKey;
pub use semantic_analysis::{
    blocks_before, function_map, functions_map, lemma_prefix_disjointness, lemma_sibling_numbering,
    lemma_sibling_numbering_onto, program_map, semantic_analisis, stmt_scope, target_binding,
    variable_type_label, walk_node, walk_stmts, well_formed_node, well_formed_program, wf_node,
    wf_program, wf_stmts_from,
};
pub use symbol_table::{
    lemma_lookup_global_miss, lemma_lookup_positive, lemma_merge_disjoint, lemma_shadowing,
    lookup_spec, Entry, EntrySpec, SymbolMap, SymbolTable, TableKey,
};

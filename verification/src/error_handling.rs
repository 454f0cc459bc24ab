//! Build-error taxonomy of the compiler front end.
//!
//! A structural error aborts the whole build; an unresolved identifier
//! is not an error at this layer and is signalled to callers through the
//! symbol table's sentinel entry instead.

use vstd::prelude::*;
use vstd::string::StringExecFns;

verus! {

/// A fatal error of the current build: either the source text did not
/// parse (the payload names the grammar rule that failed), or the
/// syntax tree handed to semantic analysis was structurally invalid.
#[derive(Debug)]
pub enum CompilationError {
    ParsingError(String),
    SemanticError,
}

/// The diagnostic text for an error, as a character sequence.
pub open spec fn error_message(err: CompilationError) -> Seq<char> {
    match err {
        CompilationError::ParsingError(rule) => "parsing failed at rule "@ + rule@,
        CompilationError::SemanticError => "semantic analysis failed: structurally invalid syntax tree"@,
    }
}

/// Renders the diagnostic for `err`; printing it is left to the caller
/// at the program's edge.
pub fn display_error(err: CompilationError) -> (msg: String)
    ensures
        msg@ == error_message(err),
{
    match err {
        CompilationError::ParsingError(rule) => {
            let mut msg = String::from_str("parsing failed at rule ");
            msg.append(rule.as_str());
            msg
        },
        CompilationError::SemanticError => {
            String::from_str("semantic analysis failed: structurally invalid syntax tree")
        },
    }
}

} // verus!

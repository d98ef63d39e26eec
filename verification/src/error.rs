//! The ways in which evaluating a page can fail.

use vstd::prelude::*;

verus! {

/// Why an evaluation, or the substitution that follows it, failed.
#[derive(Clone, Copy, Debug, PartialEq, Eq, Structural)]
pub enum EvalError {
    /// A group names neither a directive nor a variable, or has no name.
    UnknownDirective,
    /// A directive was called with arguments of the wrong number or shape.
    ArityError,
    /// An argument of a template was rejected by its checker, or a checker
    /// is not a valid pattern.
    ValidationError,
    /// An included file has not been parsed into a tree.
    ParseError,
    /// A variable is not bound.
    UndefinedVariable,
    /// A page refers to a reference that no page defines.
    UndefinedReference,
    /// Calls are nested deeper than the evaluator's limit.
    DepthExceeded,
}

/// A result with the characters of its text.
pub open spec fn text_result(r: Result<String, EvalError>) -> Result<Seq<char>, EvalError> {
    match r {
        Ok(text) => Ok(text@),
        Err(e) => Err(e),
    }
}

} // verus!

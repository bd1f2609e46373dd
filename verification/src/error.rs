//! The ways in which a translation can fail.

use vstd::prelude::*;

verus! {

/// Why an input was rejected. Every kind is fatal for the input at hand: nothing that
/// was built before the failure is meant to be used.
#[derive(Debug, Clone, Copy, PartialEq, Eq, Structural)]
pub enum CompileError {
    /// A byte that is no digit, no ASCII whitespace and none of `+ - * / ( )`.
    LexicalError,
    /// A factor began with a token that is neither a number nor `(`.
    UnexpectedToken,
    /// A parenthesised expression was not followed by `)`.
    UnbalancedParentheses,
    /// The input ended where a factor had to begin.
    UnexpectedEndOfInput,
}

} // verus!
